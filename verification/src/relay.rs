//! The relay: from the events of the driver to the recorded ones.
//!
//! A [`Relay`] decides and counts; whoever drives it does the waiting, reading and
//! writing. It is told what happened by [`Relay::step`] and answers what to do
//! next.
use crate::capture::{CaptureLimits, CaptureMode, CaptureOutcome, StoppedReason};
use crate::monitors;
use crate::monitors::{EventClass, MonitorFlags, MonitorSource};
use vstd::prelude::*;

verus! {

/// How long one wait for an event lasts, in milliseconds.
pub const RECEIVE_TIMEOUT_MILLIS: u64 = 100;

/// What stays the same while a relay runs.
#[derive(Clone, Copy, Debug, PartialEq, Eq, Structural)]
pub struct RelayConfig {
    /// The pid of the capturing process, whose own events are never recorded.
    pub own_pid: u32,
    pub monitors: MonitorFlags,
    pub limits: CaptureLimits,
    pub mode: CaptureMode,
}

/// What a relay is waiting to be told.
#[derive(Clone, Copy, Debug, PartialEq, Eq, Structural)]
pub enum RelayPhase {
    /// Whether a stop was requested, and how long the capture has run.
    Polling,
    /// The next event, or that none came.
    Receiving,
    /// What scope and filter say of the event at hand.
    Judging,
    /// Nothing more.
    Stopped(StoppedReason),
}

/// What happened.
#[derive(Clone, Copy, Debug, PartialEq, Eq, Structural)]
pub enum RelayInput {
    /// The state of the stop flag and the time since the start, in nanoseconds.
    Polled { stop_requested: bool, elapsed: u128 },
    /// An event came.
    Received { pid: u32, class: EventClass },
    /// No event came in time.
    TimedOut,
    /// No event will come any more.
    Disconnected,
    /// The event at hand was observed by the scope; it is `in_scope` or not, the
    /// filter, where there is one, matches it or not, and it takes `byte_size`
    /// bytes.
    Judged { in_scope: bool, filter_match: Option<bool>, byte_size: usize },
}

/// What to do next.
#[derive(Clone, Copy, Debug, PartialEq, Eq, Structural)]
pub enum RelayAction {
    /// Poll the stop flag and the clock.
    Poll,
    /// Wait for an event, at most this long.
    Receive { timeout_millis: u64 },
    /// Let the scope observe the event, then drop it and poll.
    Observe,
    /// Let the scope observe the event, then ask scope and filter about it.
    ObserveAndJudge,
    /// Deliver the event by the steps of [`delivery_steps`], then poll.
    Deliver { persist: bool, publish: bool },
    /// End the capture by the steps of [`finish_steps`].
    Finish { reason: StoppedReason, persist: bool },
}

/// One step of delivering an event.
#[derive(Clone, Copy, Debug, PartialEq, Eq, Structural)]
pub enum DeliveryStep {
    /// Give the event to the `.PML` writer.
    Write,
    /// Hand the event to the receiver; nobody may be listening any more, which
    /// changes nothing.
    Publish,
}

/// One step of ending a capture.
#[derive(Clone, Copy, Debug, PartialEq, Eq, Structural)]
pub enum FinishStep {
    StopDriver,
    /// Add the whole process table to what was written, so that parent chains
    /// survive.
    StampProcesses,
    /// Write the `.PML` file.
    WriteFile,
}

/// The steps of delivering an event: the writer has it before the receiver.
pub open spec fn delivery_sequence(persist: bool, publish: bool) -> Seq<DeliveryStep> {
    (if persist {
        seq![DeliveryStep::Write]
    } else {
        seq![]
    }) + (if publish {
        seq![DeliveryStep::Publish]
    } else {
        seq![]
    })
}

/// The steps of ending a capture: the driver is stopped before the file, if there
/// is one, is finished.
pub open spec fn finish_sequence(persist: bool) -> Seq<FinishStep> {
    seq![FinishStep::StopDriver] + (if persist {
        seq![FinishStep::StampProcesses, FinishStep::WriteFile]
    } else {
        seq![]
    })
}

/// The steps of delivering an event, in order.
pub fn delivery_steps(persist: bool, publish: bool) -> (r: Vec<DeliveryStep>)
    ensures
        r@ == delivery_sequence(persist, publish),
{
    let mut steps: Vec<DeliveryStep> = Vec::new();
    if persist {
        steps.push(DeliveryStep::Write);
    }
    if publish {
        steps.push(DeliveryStep::Publish);
    }
    assert(steps@ =~= delivery_sequence(persist, publish));
    steps
}

/// The steps of ending a capture, in order.
pub fn finish_steps(persist: bool) -> (r: Vec<FinishStep>)
    ensures
        r@ == finish_sequence(persist),
{
    let mut steps: Vec<FinishStep> = Vec::new();
    steps.push(FinishStep::StopDriver);
    if persist {
        steps.push(FinishStep::StampProcesses);
        steps.push(FinishStep::WriteFile);
    }
    assert(steps@ =~= finish_sequence(persist));
    steps
}

/// Consumers get an event only after the writer accepted it. An event is written
/// exactly if there is a file and handed on exactly if there is a receiver.
pub proof fn writer_comes_before_receiver(persist: bool, publish: bool, i: int, j: int)
    requires
        0 <= i < delivery_sequence(persist, publish).len(),
        0 <= j < delivery_sequence(persist, publish).len(),
    ensures
        ({
            let steps = delivery_sequence(persist, publish);
            &&& steps[i] == DeliveryStep::Write && steps[j] == DeliveryStep::Publish ==> i < j
            &&& steps.contains(DeliveryStep::Write) <==> persist
            &&& steps.contains(DeliveryStep::Publish) <==> publish
        }),
{
    let steps = delivery_sequence(persist, publish);
    if persist {
        assert(steps[0] == DeliveryStep::Write);
    }
    if publish {
        assert(steps[steps.len() - 1] == DeliveryStep::Publish);
    }
}

/// The driver is stopped first, whether or not there is a file. The file is written
/// last, if there is one, with the process table in it.
pub proof fn driver_stops_before_the_file(persist: bool, i: int)
    requires
        0 <= i < finish_sequence(persist).len(),
    ensures
        ({
            let steps = finish_sequence(persist);
            &&& steps[i] == FinishStep::StopDriver <==> i == 0
            &&& steps[i] == FinishStep::StampProcesses <==> persist && i == 1
            &&& steps[i] == FinishStep::WriteFile <==> persist && i == steps.len() - 1
        }),
{
}

/// The changing part of a relay.
pub struct RelayModel {
    pub phase: RelayPhase,
    /// The bytes of the recorded events, up to the largest `usize`.
    pub bytes: nat,
    /// The number of recorded events.
    pub written: nat,
}

/// Whether a capture that has run for `elapsed` has used up its duration.
pub open spec fn time_is_up(limits: CaptureLimits, elapsed: u128) -> bool {
    limits.duration matches Some(d) && elapsed >= d
}

/// Why to stop now, if at all: a request goes before the clock, and the clock
/// before the size.
pub open spec fn stop_reason(
    limits: CaptureLimits,
    stop_requested: bool,
    elapsed: u128,
    bytes: nat,
) -> Option<StoppedReason> {
    if stop_requested {
        Some(StoppedReason::Manual)
    } else if time_is_up(limits, elapsed) {
        Some(StoppedReason::Duration)
    } else if bytes >= limits.max_bytes {
        Some(StoppedReason::SizeLimit)
    } else {
        None
    }
}

/// Whether an event may be recorded at all: it is not the capture's own, and its
/// class was selected.
pub open spec fn admissible(config: RelayConfig, pid: u32, class: EventClass) -> bool {
    pid != config.own_pid && monitors::class_selected(class, config.monitors@)
}

/// Whether scope and filter let an event through; without a filter the scope
/// alone decides.
pub open spec fn passes(in_scope: bool, filter_match: Option<bool>) -> bool {
    in_scope && filter_match != Some(false)
}

/// Whether an input says that the event at hand is to be recorded.
pub open spec fn accepts(input: RelayInput) -> bool {
    input matches RelayInput::Judged { in_scope, filter_match, .. } && passes(
        in_scope,
        filter_match,
    )
}

/// The size that an input gives the event at hand.
pub open spec fn size_of_event(input: RelayInput) -> nat {
    match input {
        RelayInput::Judged { byte_size, .. } => byte_size as nat,
        _ => 0,
    }
}

/// A sum of sizes, up to the largest `usize`.
pub open spec fn saturated(bytes: nat) -> nat {
    if bytes <= usize::MAX {
        bytes
    } else {
        usize::MAX as nat
    }
}

/// Whether an input is one that the relay is waiting for.
pub open spec fn enabled(phase: RelayPhase, input: RelayInput) -> bool {
    match phase {
        RelayPhase::Polling => input is Polled,
        RelayPhase::Receiving => input is Received || input is TimedOut || input is Disconnected,
        RelayPhase::Judging => input is Judged,
        RelayPhase::Stopped(_) => false,
    }
}

/// A relay before its first input.
pub open spec fn initial() -> RelayModel {
    RelayModel { phase: RelayPhase::Polling, bytes: 0, written: 0 }
}

/// What an input makes of a relay.
pub open spec fn next(config: RelayConfig, m: RelayModel, input: RelayInput) -> RelayModel {
    match input {
        RelayInput::Polled { stop_requested, elapsed } => RelayModel {
            phase: match stop_reason(config.limits, stop_requested, elapsed, m.bytes) {
                Some(reason) => RelayPhase::Stopped(reason),
                None => RelayPhase::Receiving,
            },
            ..m
        },
        RelayInput::Received { pid, class } => RelayModel {
            phase: if admissible(config, pid, class) {
                RelayPhase::Judging
            } else {
                RelayPhase::Polling
            },
            ..m
        },
        RelayInput::TimedOut => RelayModel { phase: RelayPhase::Polling, ..m },
        RelayInput::Disconnected => RelayModel {
            phase: RelayPhase::Stopped(StoppedReason::Disconnected),
            ..m
        },
        RelayInput::Judged { byte_size, .. } => if accepts(input) {
            RelayModel {
                phase: RelayPhase::Polling,
                bytes: saturated(m.bytes + byte_size as nat),
                written: m.written + 1,
            }
        } else {
            RelayModel { phase: RelayPhase::Polling, ..m }
        },
    }
}

/// What the relay answers to an input.
pub open spec fn answer(config: RelayConfig, m: RelayModel, input: RelayInput) -> RelayAction {
    match input {
        RelayInput::Polled { stop_requested, elapsed } => match stop_reason(
            config.limits,
            stop_requested,
            elapsed,
            m.bytes,
        ) {
            Some(reason) => RelayAction::Finish { reason, persist: config.mode.spec_persists() },
            None => RelayAction::Receive { timeout_millis: RECEIVE_TIMEOUT_MILLIS },
        },
        RelayInput::Received { pid, class } => if admissible(config, pid, class) {
            RelayAction::ObserveAndJudge
        } else {
            RelayAction::Observe
        },
        RelayInput::TimedOut => RelayAction::Poll,
        RelayInput::Disconnected => RelayAction::Finish {
            reason: StoppedReason::Disconnected,
            persist: config.mode.spec_persists(),
        },
        RelayInput::Judged { .. } => if accepts(input) {
            RelayAction::Deliver {
                persist: config.mode.spec_persists(),
                publish: config.mode.spec_publishes(),
            }
        } else {
            RelayAction::Poll
        },
    }
}

/// Whether the event that an input may let through can still be counted.
pub open spec fn room_for(m: RelayModel, input: RelayInput) -> bool {
    accepts(input) ==> m.written < usize::MAX
}

/// There is room for every event until as many are recorded as a `usize` can count, and
/// for what records nothing there always is.
pub proof fn room_ends_with_the_counter(m: RelayModel, input: RelayInput)
    ensures
        m.written < usize::MAX ==> room_for(m, input),
        !(input is Judged) ==> room_for(m, input),
        m.written >= usize::MAX && (input matches RelayInput::Judged {
            in_scope,
            filter_match,
            ..
        } && in_scope && filter_match is None) ==> !room_for(m, input),
{
}

/// What becomes of a received event: one from any process but the capturing one, in a
/// class whose source is selected or that belongs to no source, is observed and
/// judged; any other is observed and dropped. Receiving alone counts nothing.
pub proof fn events_of_others_in_selected_classes_are_judged(
    config: RelayConfig,
    m: RelayModel,
    pid: u32,
    class: EventClass,
)
    ensures
        ({
            let input = RelayInput::Received { pid, class };
            let after = next(config, m, input);
            let selected = match class {
                EventClass::Process => config.monitors@.contains(MonitorSource::Process),
                EventClass::File => config.monitors@.contains(MonitorSource::File),
                EventClass::Registry => config.monitors@.contains(MonitorSource::Registry),
                EventClass::Network => config.monitors@.contains(MonitorSource::Network),
                EventClass::Profiling => true,
                EventClass::Other => true,
            };
            &&& pid != config.own_pid && selected ==> answer(config, m, input)
                == RelayAction::ObserveAndJudge && after.phase == RelayPhase::Judging
            &&& pid == config.own_pid || !selected ==> answer(config, m, input)
                == RelayAction::Observe && after.phase == RelayPhase::Polling
            &&& after.bytes == m.bytes
            &&& after.written == m.written
        }),
{
}

/// Which foreign process an event comes from makes no difference to what becomes of
/// it.
pub proof fn foreign_processes_are_treated_alike(
    config: RelayConfig,
    m: RelayModel,
    p: u32,
    q: u32,
    class: EventClass,
)
    requires
        p != config.own_pid,
        q != config.own_pid,
    ensures
        answer(config, m, RelayInput::Received { pid: p, class }) == answer(
            config,
            m,
            RelayInput::Received { pid: q, class },
        ),
        next(config, m, RelayInput::Received { pid: p, class }) == next(
            config,
            m,
            RelayInput::Received { pid: q, class },
        ),
{
}

/// What becomes of a judged event: one in scope, with no filter or with one that
/// matches, is delivered, counted, and its whole size added to the bytes, up to the
/// largest `usize`; any other changes no counter. The relay polls next either way.
pub proof fn events_let_through_are_delivered_and_counted(
    config: RelayConfig,
    m: RelayModel,
    in_scope: bool,
    filter_match: Option<bool>,
    byte_size: usize,
)
    ensures
        ({
            let input = RelayInput::Judged { in_scope, filter_match, byte_size };
            let after = next(config, m, input);
            &&& accepts(input) <==> in_scope && (filter_match is None || filter_match
                == Some(true))
            &&& in_scope && (filter_match is None || filter_match == Some(true)) ==> {
                &&& answer(config, m, input) == (RelayAction::Deliver {
                    persist: config.mode != CaptureMode::Transient,
                    publish: config.mode != CaptureMode::Recorded,
                })
                &&& after.written == m.written + 1
                &&& m.bytes + byte_size <= usize::MAX ==> after.bytes == m.bytes + byte_size
                &&& m.bytes + byte_size > usize::MAX ==> after.bytes == usize::MAX
            }
            &&& !in_scope || filter_match == Some(false) ==> {
                &&& answer(config, m, input) == RelayAction::Poll
                &&& after.written == m.written
                &&& after.bytes == m.bytes
            }
            &&& after.phase == RelayPhase::Polling
        }),
{
    match filter_match {
        Some(matched) => {
            if matched {
                assert(filter_match == Some(true));
            } else {
                assert(filter_match == Some(false));
            }
        },
        None => {},
    }
}

/// Nothing but a judgement lets an event through.
pub proof fn only_judgements_let_events_through(input: RelayInput)
    ensures
        accepts(input) ==> input is Judged,
{
}

/// A filter that matches counts for as much as no filter at all.
pub proof fn matching_filter_is_as_good_as_none(
    config: RelayConfig,
    m: RelayModel,
    in_scope: bool,
    byte_size: usize,
)
    ensures
        next(config, m, RelayInput::Judged { in_scope, filter_match: Some(true), byte_size })
            == next(config, m, RelayInput::Judged { in_scope, filter_match: None, byte_size }),
        answer(config, m, RelayInput::Judged { in_scope, filter_match: Some(true), byte_size })
            == answer(config, m, RelayInput::Judged { in_scope, filter_match: None, byte_size }),
{
}

/// What a poll decides: a stop request ends the capture by hand; else it is ended by
/// the clock exactly if there is a duration and the elapsed time is at least that;
/// else by size exactly if the bytes are at least the limit; and otherwise an event is
/// awaited for a tenth of a second. A poll changes no counter.
pub proof fn polls_compare_time_and_size(
    config: RelayConfig,
    m: RelayModel,
    stop_requested: bool,
    elapsed: u128,
)
    ensures
        ({
            let input = RelayInput::Polled { stop_requested, elapsed };
            let after = next(config, m, input);
            let persist = config.mode != CaptureMode::Transient;
            let over = match config.limits.duration {
                Some(d) => elapsed as int - d as int >= 0,
                None => false,
            };
            let full = m.bytes - config.limits.max_bytes as int >= 0;
            let finish = |reason: StoppedReason|
                after.phase == RelayPhase::Stopped(reason) && answer(config, m, input) == (
                RelayAction::Finish { reason, persist });
            &&& stop_requested ==> finish(StoppedReason::Manual)
            &&& !stop_requested && over ==> finish(StoppedReason::Duration)
            &&& !stop_requested && !over && full ==> finish(StoppedReason::SizeLimit)
            &&& !stop_requested && !over && !full ==> after.phase == RelayPhase::Receiving
                && answer(config, m, input) == (RelayAction::Receive { timeout_millis: 100 })
            &&& after.bytes == m.bytes
            &&& after.written == m.written
        }),
{
}

/// Time does not run backwards for a capture: where a poll ends it by the clock, a poll
/// at any later time does too; and where a poll lets it go on, so would have a poll at
/// any earlier time.
pub proof fn clock_ends_a_capture_for_good(
    config: RelayConfig,
    m: RelayModel,
    earlier: u128,
    later: u128,
)
    requires
        earlier <= later,
    ensures
        next(config, m, RelayInput::Polled { stop_requested: false, elapsed: earlier }).phase
            == RelayPhase::Stopped(StoppedReason::Duration) ==> next(
            config,
            m,
            RelayInput::Polled { stop_requested: false, elapsed: later },
        ).phase == RelayPhase::Stopped(StoppedReason::Duration),
        next(config, m, RelayInput::Polled { stop_requested: false, elapsed: later }).phase
            is Receiving ==> next(
            config,
            m,
            RelayInput::Polled { stop_requested: false, elapsed: earlier },
        ).phase is Receiving,
{
}

/// The duration is a threshold: whatever it is, the clock ends the capture at that
/// time and not before.
pub proof fn duration_is_a_threshold(config: RelayConfig, m: RelayModel, d: u128, elapsed: u128)
    requires
        config.limits.duration == Some(d),
    ensures
        next(config, m, RelayInput::Polled { stop_requested: false, elapsed }).phase
            == RelayPhase::Stopped(StoppedReason::Duration) <==> elapsed >= d,
{
}

/// What comes of a wait without an event: after a timeout the relay polls, and a
/// disconnection ends the capture. Neither changes a counter.
pub proof fn waits_without_an_event(config: RelayConfig, m: RelayModel)
    ensures
        answer(config, m, RelayInput::TimedOut) == RelayAction::Poll,
        next(config, m, RelayInput::TimedOut) == (RelayModel { phase: RelayPhase::Polling, ..m }),
        answer(config, m, RelayInput::Disconnected) == (RelayAction::Finish {
            reason: StoppedReason::Disconnected,
            persist: config.mode != CaptureMode::Transient,
        }),
        next(config, m, RelayInput::Disconnected) == (RelayModel {
            phase: RelayPhase::Stopped(StoppedReason::Disconnected),
            ..m
        }),
{
}

/// Inputs are taken in turn: a poll, then an event or none, then a judgement, and
/// nothing after the end.
pub proof fn inputs_are_taken_in_turn(phase: RelayPhase, input: RelayInput)
    ensures
        enabled(phase, input) <==> {
            ||| phase == RelayPhase::Polling && input is Polled
            ||| phase == RelayPhase::Receiving && (input is Received || input is TimedOut
                || input is Disconnected)
            ||| phase == RelayPhase::Judging && input is Judged
        },
{
}

/// A relay starts out polling, with nothing recorded.
pub proof fn relay_starts_empty()
    ensures
        initial().phase == RelayPhase::Polling,
        initial().bytes == 0,
        initial().written == 0,
{
}

/// Whether a relay is in a state that it can be in: it takes events only while
/// their size is under the limit.
pub open spec fn well_formed(config: RelayConfig, m: RelayModel) -> bool {
    &&& m.bytes <= usize::MAX
    &&& m.written <= usize::MAX
    &&& m.phase is Receiving || m.phase is Judging ==> m.bytes < config.limits.max_bytes
}

/// The decisions and counters of a running capture.
pub struct Relay {
    config: RelayConfig,
    phase: RelayPhase,
    bytes: usize,
    written: usize,
}

impl View for Relay {
    type V = RelayModel;

    closed spec fn view(&self) -> RelayModel {
        RelayModel { phase: self.phase, bytes: self.bytes as nat, written: self.written as nat }
    }
}

impl Relay {
    /// The configuration that the relay was made with.
    pub closed spec fn config(&self) -> RelayConfig {
        self.config
    }

    pub open spec fn wf(&self) -> bool {
        well_formed(self.config(), self@)
    }

    /// A relay that has seen nothing yet and waits to be polled.
    pub fn new(config: RelayConfig) -> (r: Relay)
        ensures
            r.wf(),
            r.config() == config,
            r@ == initial(),
    {
        Relay { config, phase: RelayPhase::Polling, bytes: 0, written: 0 }
    }

    /// What the relay is waiting to be told.
    pub fn phase(&self) -> (r: RelayPhase)
        ensures
            r == self@.phase,
    {
        self.phase
    }

    /// Whether `input` is one that the relay is waiting for.
    pub fn awaits(&self, input: RelayInput) -> (r: bool)
        ensures
            r == enabled(self@.phase, input),
    {
        match self.phase {
            RelayPhase::Polling => matches!(input, RelayInput::Polled { .. }),
            RelayPhase::Receiving => matches!(
                input,
                RelayInput::Received { .. } | RelayInput::TimedOut | RelayInput::Disconnected
            ),
            RelayPhase::Judging => matches!(input, RelayInput::Judged { .. }),
            RelayPhase::Stopped(_) => false,
        }
    }

    /// Whether the event that `input` may let through can still be counted.
    pub fn has_room(&self, input: RelayInput) -> (r: bool)
        ensures
            r == (accepts(input) ==> self@.written < usize::MAX),
            r == room_for(self@, input),
    {
        match input {
            RelayInput::Judged { in_scope, filter_match, .. } => {
                let matched = match filter_match {
                    Some(m) => m,
                    None => true,
                };
                !(in_scope && matched) || self.written < usize::MAX
            },
            _ => true,
        }
    }

    /// The number of events recorded so far.
    pub fn events_written(&self) -> (r: usize)
        ensures
            r == self@.written,
    {
        self.written
    }

    fn poll(&self, stop_requested: bool, elapsed: u128) -> (r: Option<StoppedReason>)
        ensures
            r == stop_reason(self.config().limits, stop_requested, elapsed, self@.bytes),
    {
        if stop_requested {
            return Some(StoppedReason::Manual);
        }
        if let Some(duration) = self.config.limits.duration {
            if elapsed >= duration {
                return Some(StoppedReason::Duration);
            }
        }
        if self.bytes >= self.config.limits.max_bytes {
            return Some(StoppedReason::SizeLimit);
        }
        None
    }

    /// Takes what happened and answers what to do next.
    pub fn step(&mut self, input: RelayInput) -> (r: RelayAction)
        requires
            old(self).wf(),
            enabled(old(self)@.phase, input),
            accepts(input) ==> old(self)@.written < usize::MAX,
        ensures
            final(self).wf(),
            final(self).config() == old(self).config(),
            final(self)@ == next(old(self).config(), old(self)@, input),
            r == answer(old(self).config(), old(self)@, input),
    {
        let persist = self.config.mode.persists();
        let publish = self.config.mode.publishes();
        match input {
            RelayInput::Polled { stop_requested, elapsed } => {
                match self.poll(stop_requested, elapsed) {
                    Some(reason) => {
                        self.phase = RelayPhase::Stopped(reason);
                        RelayAction::Finish { reason, persist }
                    },
                    None => {
                        self.phase = RelayPhase::Receiving;
                        RelayAction::Receive { timeout_millis: RECEIVE_TIMEOUT_MILLIS }
                    },
                }
            },
            RelayInput::Received { pid, class } => {
                if pid != self.config.own_pid && monitors::category_selected(
                    class,
                    self.config.monitors,
                ) {
                    self.phase = RelayPhase::Judging;
                    RelayAction::ObserveAndJudge
                } else {
                    self.phase = RelayPhase::Polling;
                    RelayAction::Observe
                }
            },
            RelayInput::TimedOut => {
                self.phase = RelayPhase::Polling;
                RelayAction::Poll
            },
            RelayInput::Disconnected => {
                self.phase = RelayPhase::Stopped(StoppedReason::Disconnected);
                RelayAction::Finish { reason: StoppedReason::Disconnected, persist }
            },
            RelayInput::Judged { in_scope, filter_match, byte_size } => {
                self.phase = RelayPhase::Polling;
                let matched = match filter_match {
                    Some(m) => m,
                    None => true,
                };
                if in_scope && matched {
                    self.bytes = self.bytes.saturating_add(byte_size);
                    self.written = self.written + 1;
                    RelayAction::Deliver { persist, publish }
                } else {
                    RelayAction::Poll
                }
            },
        }
    }

    /// Whether `outcome` is what this relay, once stopped, reports for `out_path`.
    pub open spec fn reports(&self, out_path: Seq<char>, outcome: CaptureOutcome) -> bool {
        &&& self@.phase == RelayPhase::Stopped(outcome.stopped_reason)
        &&& outcome.events_written == self@.written
        &&& outcome.pml_path@ == self.config().mode.spec_session_path(
            out_path,
            Seq::<char>::empty(),
        )
    }

    /// What a stopped relay reports: the path of the file if there is one, else an
    /// empty path, the number of recorded events, and why it stopped. A relay that
    /// still runs has nothing to report.
    pub fn outcome(&self, out_path: &str) -> (r: Option<CaptureOutcome>)
        ensures
            match r {
                Some(outcome) => self.reports(out_path@, outcome),
                None => !(self@.phase is Stopped),
            },
    {
        match self.phase {
            RelayPhase::Stopped(stopped_reason) => {
                let pml_path = if self.config.mode.persists() {
                    out_path.to_owned()
                } else {
                    String::new()
                };
                Some(CaptureOutcome { pml_path, events_written: self.written, stopped_reason })
            },
            _ => None,
        }
    }

    /// What a capture ends with, given how its last steps went: their error, if they
    /// failed, in place of the report. A relay that still runs has not ended.
    pub fn conclude<E>(&self, out_path: &str, finished: Result<(), E>) -> (r: Option<
        Result<CaptureOutcome, E>,
    >)
        ensures
            r is Some <==> self@.phase is Stopped,
            r matches Some(result) ==> match finished {
                Ok(_) => result is Ok && self.reports(out_path@, result->Ok_0),
                Err(e) => result == Err::<CaptureOutcome, E>(e),
            },
    {
        match self.outcome(out_path) {
            None => None,
            Some(outcome) => match finished {
                Ok(_) => Some(Ok(outcome)),
                Err(e) => Some(Err(e)),
            },
        }
    }
}

/// A report holds the number of recorded events, the reason why the relay stopped, and
/// the path that was asked for, or an empty one where there is no file.
pub proof fn reports_written_out(relay: Relay, out_path: Seq<char>, outcome: CaptureOutcome)
    ensures
        relay.reports(out_path, outcome) <==> {
            &&& relay@.phase == RelayPhase::Stopped(outcome.stopped_reason)
            &&& outcome.events_written as int == relay@.written
            &&& relay.config().mode == CaptureMode::Transient ==> outcome.pml_path@.len() == 0
            &&& relay.config().mode != CaptureMode::Transient ==> outcome.pml_path@ == out_path
        },
{
    if relay.config().mode == CaptureMode::Transient && outcome.pml_path@.len() == 0 {
        assert(outcome.pml_path@ =~= Seq::<char>::empty());
    }
}

} // verus!
