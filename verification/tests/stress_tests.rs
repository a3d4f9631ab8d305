use crucible::stress::{
    end_step, stress_args, Elapsed, EndSignal, EndStep, ProcessPoll, StressManager, StressState,
};

#[test]
fn test_stress_manager_new() {
    let mut manager = StressManager::new();
    assert_eq!(manager.state(None, None), StressState::Idle);
    assert!(!manager.is_running(None, None));
    assert_eq!(manager.last_elapsed_seconds(), Elapsed { secs: 0, nanos: 0 });
    assert_eq!(manager.last_stop_cause(), None);
}

#[test]
fn stress_manager_lifecycle_bookkeeping() {
    let mut m = StressManager::new();
    assert!(m.can_start());
    m.record_start(8, 5);
    assert_eq!(m.current_state(), StressState::Running);
    assert!(!m.can_start());
    assert!(m.is_running(Some(ProcessPoll::StillRunning), Some(Elapsed { secs: 0, nanos: 100 })));
    assert!(m.begin_stop("manual_stop", Some(Elapsed { secs: 0, nanos: 100_000_000 })));
    assert_eq!(m.current_state(), StressState::Stopping);
    m.finish();
    assert_eq!(m.state(None, None), StressState::Idle);
    assert_eq!(m.last_stop_cause(), Some("manual_stop"));
    assert_eq!(m.last_elapsed_seconds(), Elapsed { secs: 0, nanos: 100_000_000 });
}

#[test]
fn stress_manager_kill_bookkeeping() {
    let mut m = StressManager::new();
    m.record_start(4, 10);
    assert!(m.begin_kill(Some(Elapsed { secs: 1, nanos: 0 })));
    m.finish();
    assert_eq!(m.current_state(), StressState::Idle);
    assert_eq!(m.last_stop_cause(), Some("killed"));
    // Nothing to kill or stop any more.
    assert!(!m.begin_kill(None));
    assert!(!m.begin_stop("manual", None));
    assert_eq!(m.last_stop_cause(), Some("killed"));
}

#[test]
fn run_that_ends_by_itself() {
    let mut m = StressManager::new();
    m.record_start(2, 300);
    assert_eq!(m.state(Some(ProcessPoll::Exited), Some(Elapsed { secs: 299, nanos: 5 })), StressState::Idle);
    assert_eq!(m.last_stop_cause(), Some("completed"));

    let mut m = StressManager::new();
    m.record_start(2, 300);
    assert_eq!(m.state(Some(ProcessPoll::Exited), Some(Elapsed { secs: 12, nanos: 0 })), StressState::Idle);
    assert_eq!(m.last_stop_cause(), Some("exited"));

    // Without a set duration the run can only have exited.
    let mut m = StressManager::new();
    m.record_start(2, 0);
    m.state(Some(ProcessPoll::Exited), Some(Elapsed { secs: 5000, nanos: 0 }));
    assert_eq!(m.last_stop_cause(), Some("exited"));

    // A failed poll forgets the process without a cause.
    let mut m = StressManager::new();
    m.record_start(2, 0);
    assert_eq!(m.state(Some(ProcessPoll::Failed), None), StressState::Idle);
    assert_eq!(m.last_stop_cause(), None);
}

#[test]
fn stress_ng_arguments() {
    assert_eq!(stress_args(8, 0), vec!["--cpu", "8", "--metrics-brief"]);
    assert_eq!(stress_args(12, 300), vec!["--cpu", "12", "--metrics-brief", "--timeout", "300s"]);
}

#[test]
fn ending_a_process_escalates_once() {
    // A stop begins gently, a kill at once.
    assert_eq!(end_step(false, None, 0, ProcessPoll::StillRunning), EndStep::Send(EndSignal::Terminate));
    assert_eq!(end_step(true, None, 0, ProcessPoll::StillRunning), EndStep::Send(EndSignal::Kill));
    // After SIGTERM: wait up to three seconds, then SIGKILL a process that still runs.
    let term = Some(EndSignal::Terminate);
    assert_eq!(end_step(false, term, 2, ProcessPoll::StillRunning), EndStep::Wait);
    assert_eq!(end_step(false, term, 1, ProcessPoll::Exited), EndStep::Done);
    assert_eq!(end_step(false, term, 3, ProcessPoll::StillRunning), EndStep::Send(EndSignal::Kill));
    assert_eq!(end_step(false, term, 2, ProcessPoll::Failed), EndStep::Wait);
    assert_eq!(end_step(false, term, 3, ProcessPoll::Failed), EndStep::Done);
    // After SIGKILL: wait up to two seconds, never signal again.
    let kill = Some(EndSignal::Kill);
    assert_eq!(end_step(false, kill, 1, ProcessPoll::StillRunning), EndStep::Wait);
    assert_eq!(end_step(true, kill, 2, ProcessPoll::StillRunning), EndStep::Done);
    assert_eq!(end_step(true, kill, 0, ProcessPoll::Exited), EndStep::Done);
}
