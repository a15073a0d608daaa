use procmon_capture::capture::{CaptureLimits, CaptureMode, CaptureOutcome, StoppedReason};
use procmon_capture::monitors::{EventClass, MonitorFlags, MonitorSource};
use procmon_capture::relay::{
    delivery_steps, finish_steps, DeliveryStep, FinishStep, Relay, RelayAction, RelayConfig,
    RelayInput, RelayPhase,
};

const OWN: u32 = 77;

fn config(mode: CaptureMode, max_bytes: usize, duration: Option<u128>) -> RelayConfig {
    RelayConfig {
        own_pid: OWN,
        monitors: MonitorFlags::all(),
        limits: CaptureLimits { max_bytes, duration },
        mode,
    }
}

fn polled(stop_requested: bool, elapsed: u128) -> RelayInput {
    RelayInput::Polled { stop_requested, elapsed }
}

fn received(pid: u32, class: EventClass) -> RelayInput {
    RelayInput::Received { pid, class }
}

fn judged(in_scope: bool, filter_match: Option<bool>, byte_size: usize) -> RelayInput {
    RelayInput::Judged { in_scope, filter_match, byte_size }
}

const RECEIVE: RelayAction = RelayAction::Receive { timeout_millis: 100 };

/// Receives one event that scope and filter let through.
fn feed(relay: &mut Relay, byte_size: usize) -> RelayAction {
    assert_eq!(relay.step(polled(false, 0)), RECEIVE);
    assert_eq!(relay.step(received(1, EventClass::File)), RelayAction::ObserveAndJudge);
    relay.step(judged(true, None, byte_size))
}

#[test]
fn default_limits_are_512_mib_and_no_duration() {
    let limits = CaptureLimits::default();
    assert_eq!(limits.max_bytes, 536_870_912);
    assert_eq!(limits.duration, None);
}

#[test]
fn modes_say_where_events_go() {
    assert!(CaptureMode::Recorded.persists() && !CaptureMode::Recorded.publishes());
    assert!(CaptureMode::Streaming.persists() && CaptureMode::Streaming.publishes());
    assert!(!CaptureMode::Transient.persists() && CaptureMode::Transient.publishes());
}

#[test]
fn events_are_delivered_as_the_mode_says() {
    for (mode, persist, publish) in [
        (CaptureMode::Recorded, true, false),
        (CaptureMode::Streaming, true, true),
        (CaptureMode::Transient, false, true),
    ] {
        let mut relay = Relay::new(config(mode, 1000, None));
        assert_eq!(feed(&mut relay, 5), RelayAction::Deliver { persist, publish });
        assert_eq!(relay.events_written(), 1);
        assert_eq!(
            relay.step(polled(true, 0)),
            RelayAction::Finish { reason: StoppedReason::Manual, persist }
        );
    }
}

#[test]
fn own_and_deselected_events_are_observed_only() {
    let mut c = config(CaptureMode::Recorded, 1000, None);
    c.monitors = MonitorFlags::empty();
    c.monitors.insert(MonitorSource::Network);
    let mut relay = Relay::new(c);
    for (pid, class, action) in [
        (OWN, EventClass::Network, RelayAction::Observe),
        (OWN, EventClass::Other, RelayAction::Observe),
        (1, EventClass::Process, RelayAction::Observe),
        (1, EventClass::Network, RelayAction::ObserveAndJudge),
        (1, EventClass::Profiling, RelayAction::ObserveAndJudge),
    ] {
        assert_eq!(relay.step(polled(false, 0)), RECEIVE);
        assert_eq!(relay.step(received(pid, class)), action);
        if action == RelayAction::ObserveAndJudge {
            assert_eq!(relay.phase(), RelayPhase::Judging);
            assert_eq!(relay.step(judged(false, None, 1)), RelayAction::Poll);
        }
        assert_eq!(relay.phase(), RelayPhase::Polling);
    }
    assert_eq!(relay.events_written(), 0);
}

#[test]
fn scope_and_filter_must_both_agree() {
    let mut relay = Relay::new(config(CaptureMode::Recorded, 1000, None));
    for (in_scope, filter_match, delivered) in [
        (true, None, true),
        (true, Some(true), true),
        (true, Some(false), false),
        (false, None, false),
        (false, Some(true), false),
        (false, Some(false), false),
    ] {
        relay.step(polled(false, 0));
        relay.step(received(1, EventClass::Registry));
        let before = relay.events_written();
        let action = relay.step(judged(in_scope, filter_match, 1));
        let deliver = RelayAction::Deliver { persist: true, publish: false };
        assert_eq!(action, if delivered { deliver } else { RelayAction::Poll });
        assert_eq!(relay.events_written() - before, if delivered { 1 } else { 0 });
    }
}

#[test]
fn a_timeout_polls_again() {
    let mut relay = Relay::new(config(CaptureMode::Recorded, 1000, Some(50)));
    assert_eq!(relay.step(polled(false, 49)), RECEIVE);
    assert_eq!(relay.step(RelayInput::TimedOut), RelayAction::Poll);
    assert_eq!(
        relay.step(polled(false, 50)),
        RelayAction::Finish { reason: StoppedReason::Duration, persist: true }
    );
}

#[test]
fn a_request_goes_before_the_clock_and_the_clock_before_the_size() {
    for (stop, elapsed, reason) in [
        (true, 99, StoppedReason::Manual),
        (true, 0, StoppedReason::Manual),
        (false, 99, StoppedReason::Duration),
        (false, 0, StoppedReason::SizeLimit),
    ] {
        let mut relay = Relay::new(config(CaptureMode::Recorded, 0, Some(10)));
        assert_eq!(
            relay.step(polled(stop, elapsed)),
            RelayAction::Finish { reason, persist: true }
        );
        assert_eq!(relay.phase(), RelayPhase::Stopped(reason));
    }
}

#[test]
fn the_size_limit_is_overrun_by_one_event_at_most() {
    let mut relay = Relay::new(config(CaptureMode::Recorded, 10, None));
    feed(&mut relay, 9);
    feed(&mut relay, 500);
    assert_eq!(
        relay.step(polled(false, 0)),
        RelayAction::Finish { reason: StoppedReason::SizeLimit, persist: true }
    );
    assert_eq!(relay.events_written(), 2);

    let mut relay = Relay::new(config(CaptureMode::Recorded, 10, None));
    feed(&mut relay, 10);
    assert_eq!(
        relay.step(polled(false, 0)),
        RelayAction::Finish { reason: StoppedReason::SizeLimit, persist: true }
    );
}

#[test]
fn sizes_saturate() {
    let mut relay = Relay::new(config(CaptureMode::Recorded, usize::MAX, None));
    feed(&mut relay, usize::MAX - 1);
    feed(&mut relay, usize::MAX - 1);
    assert_eq!(
        relay.step(polled(false, 0)),
        RelayAction::Finish { reason: StoppedReason::SizeLimit, persist: true }
    );
    assert_eq!(relay.events_written(), 2);
}

#[test]
fn disconnection_ends_the_capture() {
    let mut relay = Relay::new(config(CaptureMode::Transient, 10, None));
    relay.step(polled(false, 0));
    assert_eq!(
        relay.step(RelayInput::Disconnected),
        RelayAction::Finish { reason: StoppedReason::Disconnected, persist: false }
    );
    assert!(!relay.awaits(polled(false, 0)));
    assert!(!relay.awaits(RelayInput::TimedOut));
}

#[test]
fn a_relay_waits_for_one_kind_of_input_at_a_time() {
    let mut relay = Relay::new(config(CaptureMode::Recorded, 10, None));
    let event = received(1, EventClass::File);
    let verdict = judged(true, None, 1);
    assert!(relay.awaits(polled(true, 0)) && !relay.awaits(event) && !relay.awaits(verdict));
    relay.step(polled(false, 0));
    assert!(!relay.awaits(polled(true, 0)) && relay.awaits(event) && !relay.awaits(verdict));
    assert!(relay.awaits(RelayInput::TimedOut) && relay.awaits(RelayInput::Disconnected));
    relay.step(event);
    assert!(!relay.awaits(polled(true, 0)) && !relay.awaits(event) && relay.awaits(verdict));
}

#[test]
fn the_outcome_tells_path_count_and_reason() {
    let mut relay = Relay::new(config(CaptureMode::Streaming, 3, None));
    assert_eq!(relay.outcome("x.pml"), None);
    feed(&mut relay, 1);
    feed(&mut relay, 2);
    relay.step(polled(false, 0));
    assert_eq!(
        relay.outcome("dir/x.pml"),
        Some(CaptureOutcome {
            pml_path: "dir/x.pml".to_string(),
            events_written: 2,
            stopped_reason: StoppedReason::SizeLimit,
        })
    );

    let mut relay = Relay::new(config(CaptureMode::Transient, 3, None));
    relay.step(polled(true, 0));
    assert_eq!(
        relay.outcome("ignored"),
        Some(CaptureOutcome {
            pml_path: String::new(),
            events_written: 0,
            stopped_reason: StoppedReason::Manual,
        })
    );
}

#[test]
fn an_unlimited_capture_runs_until_stopped() {
    let mut relay = Relay::new(config(CaptureMode::Recorded, usize::MAX, None));
    for _ in 0..50 {
        feed(&mut relay, 1_000);
        assert_eq!(relay.step(polled(false, u128::MAX)), RECEIVE);
        assert_eq!(relay.step(RelayInput::TimedOut), RelayAction::Poll);
    }
    assert_eq!(
        relay.step(polled(true, u128::MAX)),
        RelayAction::Finish { reason: StoppedReason::Manual, persist: true }
    );
    assert_eq!(relay.events_written(), 50);
}

#[test]
fn the_writer_has_an_event_before_the_receiver() {
    assert_eq!(delivery_steps(true, true), vec![DeliveryStep::Write, DeliveryStep::Publish]);
    assert_eq!(delivery_steps(true, false), vec![DeliveryStep::Write]);
    assert_eq!(delivery_steps(false, true), vec![DeliveryStep::Publish]);
    assert!(delivery_steps(false, false).is_empty());
}

#[test]
fn the_driver_stops_before_the_file_is_finished() {
    assert_eq!(
        finish_steps(true),
        vec![FinishStep::StopDriver, FinishStep::StampProcesses, FinishStep::WriteFile]
    );
    assert_eq!(finish_steps(false), vec![FinishStep::StopDriver]);
}

#[test]
fn an_unfinished_file_gives_its_error_in_place_of_an_outcome() {
    let mut relay = Relay::new(config(CaptureMode::Recorded, 3, None));
    assert_eq!(relay.conclude::<u8>("x.pml", Ok(())), None);
    assert_eq!(relay.conclude("x.pml", Err(4u8)), None);
    relay.step(polled(true, 0));
    assert_eq!(relay.conclude("x.pml", Err(4u8)), Some(Err(4)));
    assert_eq!(
        relay.conclude::<u8>("x.pml", Ok(())),
        Some(Ok(CaptureOutcome {
            pml_path: "x.pml".to_string(),
            events_written: 0,
            stopped_reason: StoppedReason::Manual,
        }))
    );
}

#[test]
fn a_transient_session_has_the_empty_path() {
    let path = |mode: CaptureMode| mode.session_path("x.pml".to_string(), String::new());
    assert_eq!(path(CaptureMode::Transient), "");
    assert_eq!(path(CaptureMode::Recorded), "x.pml");
    assert_eq!(path(CaptureMode::Streaming), "x.pml");
    let again = CaptureMode::Recorded.session_path(path(CaptureMode::Recorded), String::new());
    assert_eq!(again, "x.pml");
}

#[test]
fn a_fresh_relay_has_room_for_every_event() {
    let mut relay = Relay::new(config(CaptureMode::Recorded, 1000, None));
    assert!(relay.has_room(judged(true, None, 1)));
    assert!(relay.has_room(judged(false, Some(true), 1)));
    feed(&mut relay, 1);
    assert!(relay.has_room(judged(true, Some(true), 1)));
    assert!(relay.has_room(polled(true, 0)));
}
