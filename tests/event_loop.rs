use scheduler::event_loop::{EventLoopState, LoopAction};
use scheduler::time::{Delay, Timestamp};

fn at(nanos: i128) -> Timestamp {
    Timestamp { nanos }
}

/// Turns the loop until it has nothing to run at `now`, collecting the tasks run.
fn drain(s: &mut EventLoopState<u32>, now: Timestamp) -> Vec<u32> {
    let mut ran = Vec::new();
    loop {
        match s.next_action(now) {
            LoopAction::Run(t) => ran.push(t),
            LoopAction::Promoted => {}
            _ => return ran,
        }
    }
}

#[test]
fn fresh_engine_waits_for_signal() {
    let mut s: EventLoopState<u32> = EventLoopState::new();
    assert!(!s.is_stopped());
    assert!(matches!(s.next_action(at(0)), LoopAction::WaitForSignal));
}

#[test]
fn immediate_tasks_run_in_submission_order() {
    let mut s = EventLoopState::new();
    for t in 1..=5u32 {
        s.schedule(t);
    }
    assert_eq!(drain(&mut s, at(0)), vec![1, 2, 3, 4, 5]);
    assert!(matches!(s.next_action(at(0)), LoopAction::WaitForSignal));
}

#[test]
fn elapsed_delayed_tasks_run_by_due_time() {
    let mut s = EventLoopState::new();
    s.schedule_absolute(at(300), 3);
    s.schedule_absolute(at(100), 1);
    s.schedule_absolute(at(200), 2);
    assert!(matches!(s.next_action(at(1_000)), LoopAction::Promoted));
    assert!(matches!(s.next_action(at(1_000)), LoopAction::Run(1)));
    assert_eq!(drain(&mut s, at(1_000)), vec![2, 3]);
}

#[test]
fn equal_due_times_keep_submission_order() {
    let mut s = EventLoopState::new();
    s.schedule_absolute(at(50), 1);
    s.schedule_absolute(at(10), 0);
    s.schedule_absolute(at(50), 2);
    s.schedule_absolute(at(50), 3);
    assert_eq!(drain(&mut s, at(50)), vec![0, 1, 2, 3]);
}

#[test]
fn ready_tasks_run_before_due_delayed_tasks() {
    let mut s = EventLoopState::new();
    s.schedule_absolute(at(0), 9);
    s.schedule(1);
    assert!(matches!(s.next_action(at(5)), LoopAction::Run(1)));
    assert!(matches!(s.next_action(at(5)), LoopAction::Promoted));
    assert!(matches!(s.next_action(at(5)), LoopAction::Run(9)));
}

#[test]
fn delayed_task_waits_until_due() {
    let mut s = EventLoopState::new();
    s.schedule_absolute(at(2_500_000_000), 7);
    match s.next_action(at(1_000_000_000)) {
        LoopAction::WaitFor(d) => assert_eq!(d, Delay { secs: 1, subsec_nanos: 500_000_000 }),
        _ => panic!("expected a timed wait"),
    }
    // one nanosecond early: still waiting
    match s.next_action(at(2_499_999_999)) {
        LoopAction::WaitFor(d) => assert_eq!(d, Delay { secs: 0, subsec_nanos: 1 }),
        _ => panic!("expected a timed wait"),
    }
    // exactly due: promoted, then run
    assert!(matches!(s.next_action(at(2_500_000_000)), LoopAction::Promoted));
    assert!(matches!(s.next_action(at(2_500_000_000)), LoopAction::Run(7)));
}

#[test]
fn relative_task_is_due_after_the_delay() {
    let mut s = EventLoopState::new();
    let now = at(1_000);
    assert!(s.schedule_relative(now, Delay { secs: 2, subsec_nanos: 5 }, 4).is_ok());
    match s.next_action(now) {
        LoopAction::WaitFor(d) => assert_eq!(d, Delay { secs: 2, subsec_nanos: 5 }),
        _ => panic!("expected a timed wait"),
    }
    assert!(matches!(s.next_action(at(2_000_001_004)), LoopAction::WaitFor(_)));
    assert!(matches!(s.next_action(at(2_000_001_005)), LoopAction::Promoted));
    assert!(matches!(s.next_action(at(2_000_001_005)), LoopAction::Run(4)));
}

#[test]
fn zero_delay_is_due_at_once() {
    let mut s = EventLoopState::new();
    assert!(s.schedule_relative(at(10), Delay { secs: 0, subsec_nanos: 0 }, 1).is_ok());
    assert!(matches!(s.next_action(at(10)), LoopAction::Promoted));
    assert!(matches!(s.next_action(at(10)), LoopAction::Run(1)));
}

#[test]
fn past_due_time_is_due_at_once() {
    let mut s = EventLoopState::new();
    s.schedule_absolute(at(-1_000), 1);
    assert!(matches!(s.next_action(at(0)), LoopAction::Promoted));
    assert!(matches!(s.next_action(at(0)), LoopAction::Run(1)));
}

#[test]
fn unrepresentable_due_time_hands_task_back() {
    let mut s = EventLoopState::new();
    let r = s.schedule_relative(at(i128::MAX - 10), Delay { secs: 1, subsec_nanos: 0 }, 6);
    assert_eq!(r, Err(6));
    assert!(matches!(s.next_action(at(0)), LoopAction::WaitForSignal));
}

#[test]
fn submission_ends_idle_wait() {
    let mut s = EventLoopState::new();
    assert!(matches!(s.next_action(at(0)), LoopAction::WaitForSignal));
    s.schedule(1);
    assert!(matches!(s.next_action(at(0)), LoopAction::Run(1)));
    assert!(matches!(s.next_action(at(0)), LoopAction::WaitForSignal));
    s.schedule_absolute(at(40), 2);
    match s.next_action(at(0)) {
        LoopAction::WaitFor(d) => assert_eq!(d, Delay { secs: 0, subsec_nanos: 40 }),
        _ => panic!("expected a timed wait"),
    }
    // an earlier submission shortens the wait
    s.schedule_absolute(at(15), 3);
    match s.next_action(at(0)) {
        LoopAction::WaitFor(d) => assert_eq!(d, Delay { secs: 0, subsec_nanos: 15 }),
        _ => panic!("expected a timed wait"),
    }
}

#[test]
fn stop_moves_engine_to_stopped() {
    let mut s: EventLoopState<u32> = EventLoopState::new();
    assert!(!s.is_stopped());
    s.stop();
    assert!(s.is_stopped());
    assert!(matches!(s.next_action(at(0)), LoopAction::Exit));
    assert!(matches!(s.next_action(at(0)), LoopAction::Exit));
}

#[test]
fn stop_discards_pending_tasks() {
    let mut s = EventLoopState::new();
    s.schedule(1);
    s.schedule(2);
    s.schedule_absolute(at(100), 3);
    assert!(matches!(s.next_action(at(0)), LoopAction::Run(1)));
    s.stop();
    assert!(matches!(s.next_action(at(0)), LoopAction::Exit));
    // the delayed task's due time passes, and more work arrives: nothing runs
    s.schedule(4);
    s.schedule_absolute(at(0), 5);
    assert!(matches!(s.next_action(at(1_000)), LoopAction::Exit));
    assert!(matches!(s.next_action(at(1_000)), LoopAction::Exit));
}

/// Drives a countdown: the task holding `k` reports `k`, then submits `k - 1`,
/// or stops the engine at zero.
fn run_countdown(s: &mut EventLoopState<u32>, now: Timestamp) -> Vec<u32> {
    let mut seen = Vec::new();
    loop {
        match s.next_action(now) {
            LoopAction::Run(k) => {
                seen.push(k);
                if k > 0 {
                    s.schedule(k - 1);
                } else {
                    s.stop();
                }
            }
            LoopAction::Promoted => {}
            LoopAction::Exit => return seen,
            _ => panic!("the countdown never waits"),
        }
    }
}

#[test]
fn count_down_from_three() {
    let mut s = EventLoopState::new();
    s.schedule(3);
    assert_eq!(run_countdown(&mut s, at(0)), vec![3, 2, 1, 0]);
    assert!(s.is_stopped());
}

#[test]
fn count_down_from_zero_runs_once() {
    let mut s = EventLoopState::new();
    s.schedule(0);
    assert_eq!(run_countdown(&mut s, at(0)), vec![0]);
}

#[test]
fn instances_progress_independently() {
    let mut a = EventLoopState::new();
    let mut b = EventLoopState::new();
    a.schedule(2u32);
    b.schedule(5u32);
    let mut seen_a = Vec::new();
    let mut seen_b = Vec::new();
    for _ in 0..2 {
        if let LoopAction::Run(k) = a.next_action(at(0)) {
            seen_a.push(k);
            a.schedule(k - 1);
        }
        if let LoopAction::Run(k) = b.next_action(at(0)) {
            seen_b.push(k);
            b.schedule(k - 1);
        }
    }
    a.stop();
    assert!(matches!(a.next_action(at(0)), LoopAction::Exit));
    assert!(!b.is_stopped());
    assert_eq!(run_countdown(&mut b, at(0)), vec![3, 2, 1, 0]);
    seen_b.extend([3, 2, 1, 0]);
    assert_eq!(seen_a, vec![2, 1]);
    assert_eq!(seen_b, vec![5, 4, 3, 2, 1, 0]);
}

#[test]
fn count_down_with_delayed_resubmission() {
    let delay = Delay { secs: 0, subsec_nanos: 100 };
    let mut s = EventLoopState::new();
    s.schedule(3u32);
    let mut clock: i128 = 0;
    let mut seen = Vec::new();
    let mut turns = 0;
    loop {
        turns += 1;
        match s.next_action(at(clock)) {
            LoopAction::Run(k) => {
                seen.push(k);
                if k > 0 {
                    assert!(s.schedule_relative(at(clock), delay, k - 1).is_ok());
                } else {
                    s.stop();
                }
            }
            LoopAction::WaitFor(d) => {
                assert_eq!(d, delay);
                clock += 100;
            }
            LoopAction::Promoted => {}
            LoopAction::Exit => break,
            LoopAction::WaitForSignal => panic!("the countdown never idles"),
        }
    }
    assert_eq!(seen, vec![3, 2, 1, 0]);
    assert_eq!(clock, 300);
    assert_eq!(turns, 11);
    assert!(s.is_stopped());
}
