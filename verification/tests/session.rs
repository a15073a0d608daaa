use procmon_capture::capture::{CaptureOutcome, StoppedReason};
use procmon_capture::session::{
    join_result, JoinStep, Joined, SessionAction, SessionError, SessionRequest, SessionState,
    RELAY_THREAD_NAME,
};

fn outcome() -> CaptureOutcome {
    CaptureOutcome {
        pml_path: "a.pml".to_string(),
        events_written: 3,
        stopped_reason: StoppedReason::Duration,
    }
}

#[test]
fn the_first_request_joins_the_thread() {
    for (request, signal_stop) in [
        (SessionRequest::Wait, false),
        (SessionRequest::Stop, true),
        (SessionRequest::Drop, true),
    ] {
        let mut state = SessionState::new("a.pml");
        assert!(state.is_running(false));
        assert!(!state.is_running(true));
        assert_eq!(
            state.request(request),
            SessionAction { signal_stop, join: JoinStep::Join }
        );
        assert!(!state.is_running(false));
        assert_eq!(state.stop_signalled(), signal_stop);
        assert_eq!(
            state.request(SessionRequest::Drop),
            SessionAction { signal_stop: false, join: JoinStep::Nothing }
        );
    }
}

#[test]
fn later_requests_find_the_capture_finished() {
    let mut state = SessionState::new("a.pml");
    state.request(SessionRequest::Wait);
    assert_eq!(state.request(SessionRequest::Wait).join, JoinStep::AlreadyFinished);
    assert_eq!(
        state.request(SessionRequest::Stop),
        SessionAction { signal_stop: true, join: JoinStep::AlreadyFinished }
    );
}

#[test]
fn a_joined_thread_gives_its_outcome_or_an_error() {
    let ended: Joined<u8> = Joined::Ended(Ok(outcome()));
    assert!(matches!(join_result(ended), Ok(o) if o == outcome()));
    let failed: Joined<u8> = Joined::Ended(Err(7));
    assert!(matches!(join_result(failed), Err(SessionError::Driver(7))));
    let panicked: Joined<u8> = Joined::Panicked;
    assert!(matches!(join_result(panicked), Err(SessionError::ThreadPanicked)));
    let again: Joined<u8> = Joined::AlreadyFinished;
    assert!(matches!(join_result(again), Err(SessionError::AlreadyFinished)));
}

#[test]
fn session_errors_have_messages() {
    let spawn: SessionError<u8> = SessionError::Spawn("no threads".to_string());
    assert_eq!(spawn.message(), Some("spawn capture thread: no threads".to_string()));
    let panicked: SessionError<u8> = SessionError::ThreadPanicked;
    assert_eq!(panicked.message(), Some("capture thread panicked".to_string()));
    let finished: SessionError<u8> = SessionError::AlreadyFinished;
    assert_eq!(finished.message(), Some("capture already finished".to_string()));
    let driver: SessionError<u8> = SessionError::Driver(1);
    assert_eq!(driver.message(), None);
}

#[test]
fn a_session_keeps_its_path_and_its_stop_flag() {
    let mut state = SessionState::new("dir/a.pml".to_string());
    assert_eq!(state.pml_path(), "dir/a.pml");
    assert!(!state.stop_signalled());
    state.request(SessionRequest::Wait);
    assert!(!state.stop_signalled());
    state.request(SessionRequest::Stop);
    assert!(state.stop_signalled());
    state.request(SessionRequest::Drop);
    assert!(state.stop_signalled());
    assert_eq!(state.pml_path(), "dir/a.pml");
}

#[test]
fn the_relay_thread_has_a_name() {
    assert_eq!(RELAY_THREAD_NAME, "procmon-capture");
}
