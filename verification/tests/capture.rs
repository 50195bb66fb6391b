use tracestore::capture::{CapturePhase, CaptureSession, ControlAction, StopReason};
use tracestore::shared_structs::{TimeRange, TimeStamp};

#[test]
fn arming_plants_every_breakpoint_then_resumes() {
    let (session, actions) = CaptureSession::start(vec![100, 200], 4, 1);
    assert_eq!(session.phase, CapturePhase::Running);
    assert_eq!(session.open_ft, 1);
    assert_eq!(
        actions,
        vec![
            ControlAction::SetBreakpoint(100),
            ControlAction::SetBreakpoint(200),
            ControlAction::Resume,
        ]
    );
}

#[test]
fn traps_record_addresses_of_interest_and_step_over() {
    let (mut session, _) = CaptureSession::start(vec![100, 200], 4, 1);
    // a trap at an address of interest: record it, lift the breakpoint, step
    let actions = session.on_stop(100, 1, StopReason::Trap);
    assert_eq!(session.phase, CapturePhase::SteppingOver(100));
    assert_eq!(
        actions,
        vec![ControlAction::RemoveBreakpoint(100), ControlAction::SingleStep]
    );
    // the clean step replants the breakpoint and resumes
    let actions = session.on_step_over(StopReason::SteppedOne);
    assert_eq!(session.phase, CapturePhase::Running);
    assert_eq!(actions, vec![ControlAction::SetBreakpoint(100), ControlAction::Resume]);
    // a trap at an uninteresting address only resumes
    let actions = session.on_stop(555, 1, StopReason::Trap);
    assert_eq!(session.phase, CapturePhase::Running);
    assert_eq!(actions, vec![ControlAction::Resume]);
    // termination closes the checkpoint and removes every breakpoint
    let actions = session.on_stop(0, 1, StopReason::Exited);
    assert_eq!(session.phase, CapturePhase::Finished);
    assert_eq!(
        actions,
        vec![ControlAction::RemoveBreakpoint(100), ControlAction::RemoveBreakpoint(200)]
    );
    assert_eq!(session.closed_fts, vec![1]);
    let range = TimeRange { start: TimeStamp::new_at_ft(1), end: TimeStamp::new_at_ft(1) };
    assert!(session.recorder.get_addresses_in(&range).is_ok());
    let occ = session.recorder.get_addr_occurrences(100);
    assert_eq!(occ, vec![TimeStamp::new_at_ft(1)]);
}

#[test]
fn checkpoint_transitions_close_and_open_bins() {
    let (mut session, _) = CaptureSession::start(vec![100, 200], 4, 1);
    session.on_stop(100, 1, StopReason::Trap);
    session.on_step_over(StopReason::SteppedOne);
    // the next trap arrives in checkpoint 3: checkpoint 1 closes
    session.on_stop(200, 3, StopReason::Trap);
    session.on_step_over(StopReason::SteppedOne);
    session.on_stop(0, 3, StopReason::Exited);
    assert_eq!(session.closed_fts, vec![1, 3]);
    let range = TimeRange { start: TimeStamp::new_at_ft(1), end: TimeStamp::new_at_ft(3) };
    let addrs = session.recorder.get_addresses_in(&range).unwrap().to_vec();
    assert_eq!(addrs, vec![100]);
}

#[test]
fn unexpected_step_outcome_fails_the_session_with_cleanup() {
    let (mut session, _) = CaptureSession::start(vec![100], 4, 1);
    session.on_stop(100, 1, StopReason::Trap);
    let actions = session.on_step_over(StopReason::Signaled(11));
    assert_eq!(session.phase, CapturePhase::Failed(StopReason::Signaled(11)));
    assert_eq!(actions, vec![ControlAction::RemoveBreakpoint(100)]);
    assert_eq!(session.closed_fts, vec![1]);
}

#[test]
fn unexpected_signal_fails_the_session() {
    let (mut session, _) = CaptureSession::start(vec![100], 4, 1);
    let actions = session.on_stop(0, 1, StopReason::Signaled(9));
    assert_eq!(session.phase, CapturePhase::Failed(StopReason::Signaled(9)));
    assert_eq!(actions, vec![ControlAction::RemoveBreakpoint(100)]);
}

#[test]
fn cancellation_closes_cleanly() {
    let (mut session, _) = CaptureSession::start(vec![100], 4, 1);
    session.on_stop(100, 1, StopReason::Trap);
    session.on_step_over(StopReason::SteppedOne);
    let actions = session.cancel();
    assert_eq!(session.phase, CapturePhase::Finished);
    assert_eq!(actions, vec![ControlAction::RemoveBreakpoint(100)]);
    assert_eq!(session.closed_fts, vec![1]);
}
