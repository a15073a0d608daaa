//! What holds of a relay over a whole capture, whatever happens in it.
use crate::capture::{CaptureMode, StoppedReason};
use crate::monitors::{EventClass, MonitorSource};
use crate::relay;
use crate::relay::{RelayAction, RelayConfig, RelayInput, RelayModel, RelayPhase};
use vstd::prelude::*;

verus! {

/// The state of a relay after the given inputs.
pub open spec fn run(config: RelayConfig, inputs: Seq<RelayInput>) -> RelayModel
    decreases inputs.len(),
{
    if inputs.len() == 0 {
        relay::initial()
    } else {
        relay::next(config, run(config, inputs.drop_last()), inputs.last())
    }
}

/// Whether every input comes when the relay waits for it.
pub open spec fn legal(config: RelayConfig, inputs: Seq<RelayInput>) -> bool
    decreases inputs.len(),
{
    inputs.len() > 0 ==> {
        &&& legal(config, inputs.drop_last())
        &&& relay::enabled(run(config, inputs.drop_last()).phase, inputs.last())
    }
}

/// What the relay answers to the input at `i`.
pub open spec fn answer_at(config: RelayConfig, inputs: Seq<RelayInput>, i: int) -> RelayAction {
    relay::answer(config, run(config, inputs.take(i)), inputs[i])
}

/// How many inputs let an event through.
pub open spec fn accepted(inputs: Seq<RelayInput>) -> nat
    decreases inputs.len(),
{
    if inputs.len() == 0 {
        0
    } else {
        accepted(inputs.drop_last()) + if relay::accepts(inputs.last()) {
            1nat
        } else {
            0nat
        }
    }
}

/// The sizes of the events that are let through, added up.
pub open spec fn accepted_bytes(inputs: Seq<RelayInput>) -> nat
    decreases inputs.len(),
{
    if inputs.len() == 0 {
        0
    } else {
        accepted_bytes(inputs.drop_last()) + if relay::accepts(inputs.last()) {
            relay::size_of_event(inputs.last())
        } else {
            0nat
        }
    }
}

proof fn lemma_legal_prefix(config: RelayConfig, inputs: Seq<RelayInput>, n: int)
    requires
        legal(config, inputs),
        0 <= n <= inputs.len(),
    ensures
        legal(config, inputs.take(n)),
        n < inputs.len() ==> relay::enabled(run(config, inputs.take(n)).phase, inputs[n]),
    decreases inputs.len(),
{
    if n == inputs.len() {
        assert(inputs.take(n) == inputs);
    } else {
        let front = inputs.drop_last();
        lemma_legal_prefix(config, front, n);
        assert(front.take(n) == inputs.take(n));
        if n == front.len() {
            assert(front.take(n) == front);
        } else {
            assert(front[n] == inputs[n]);
        }
    }
}

proof fn lemma_run_step(config: RelayConfig, inputs: Seq<RelayInput>, i: int)
    requires
        0 <= i < inputs.len(),
    ensures
        run(config, inputs.take(i + 1)) == relay::next(
            config,
            run(config, inputs.take(i)),
            inputs[i],
        ),
{
    assert(inputs.take(i + 1).drop_last() == inputs.take(i));
    assert(inputs.take(i + 1).last() == inputs[i]);
}

/// A capture goes input by input: it starts polling with nothing recorded, and each
/// further input acts on what the ones before it left.
pub proof fn captures_go_input_by_input(
    config: RelayConfig,
    inputs: Seq<RelayInput>,
    input: RelayInput,
)
    ensures
        run(config, Seq::<RelayInput>::empty()) == (RelayModel {
            phase: RelayPhase::Polling,
            bytes: 0,
            written: 0,
        }),
        run(config, inputs.push(input)) == relay::next(config, run(config, inputs), input),
        answer_at(config, inputs.push(input), inputs.len() as int) == relay::answer(
            config,
            run(config, inputs),
            input,
        ),
        legal(config, Seq::<RelayInput>::empty()),
        legal(config, inputs.push(input)) <==> legal(config, inputs) && relay::enabled(
            run(config, inputs).phase,
            input,
        ),
{
    let more = inputs.push(input);
    assert(more.drop_last() == inputs);
    assert(more.take(inputs.len() as int) == inputs);
}

/// The byte sizes of the delivered events, added up.
pub open spec fn delivered_bytes(config: RelayConfig, inputs: Seq<RelayInput>) -> nat
    decreases inputs.len(),
{
    if inputs.len() == 0 {
        0
    } else {
        let before = delivered_bytes(config, inputs.drop_last());
        match (answer_at(config, inputs, inputs.len() - 1), inputs.last()) {
            (
                RelayAction::Deliver { .. },
                RelayInput::Judged { byte_size, .. },
            ) => before + byte_size as nat,
            _ => before,
        }
    }
}

/// The number of delivered events.
pub open spec fn deliveries(config: RelayConfig, inputs: Seq<RelayInput>) -> nat
    decreases inputs.len(),
{
    if inputs.len() == 0 {
        0
    } else {
        deliveries(config, inputs.drop_last()) + if answer_at(config, inputs, inputs.len() - 1)
            is Deliver {
            1nat
        } else {
            0nat
        }
    }
}

/// The counters are those of what was delivered: each delivered event counts once, and
/// the bytes are the sum of the sizes of the delivered events, up to the largest
/// `usize`.
pub proof fn counters_are_those_of_the_deliveries(config: RelayConfig, inputs: Seq<RelayInput>)
    ensures
        run(config, inputs).written == deliveries(config, inputs),
        delivered_bytes(config, inputs) <= usize::MAX ==> run(config, inputs).bytes
            == delivered_bytes(config, inputs),
        delivered_bytes(config, inputs) > usize::MAX ==> run(config, inputs).bytes == usize::MAX,
    decreases inputs.len(),
{
    if inputs.len() > 0 {
        let front = inputs.drop_last();
        counters_are_those_of_the_deliveries(config, front);
        assert(inputs.take(inputs.len() - 1) == front);
        match inputs.last() {
            RelayInput::Judged { in_scope, filter_match, byte_size } => {
                relay::events_let_through_are_delivered_and_counted(
                    config,
                    run(config, front),
                    in_scope,
                    filter_match,
                    byte_size,
                );
            },
            _ => {},
        }
    }
}

/// Once the delivered events reach the size limit, the next poll ends the capture: no
/// further event is awaited, let alone delivered.
pub proof fn full_capture_ends_at_the_next_poll(
    config: RelayConfig,
    inputs: Seq<RelayInput>,
    stop_requested: bool,
    elapsed: u128,
)
    requires
        delivered_bytes(config, inputs) >= config.limits.max_bytes,
    ensures
        run(config, inputs.push(RelayInput::Polled { stop_requested, elapsed })).phase is Stopped,
{
    counters_are_those_of_the_deliveries(config, inputs);
    captures_go_input_by_input(config, inputs, RelayInput::Polled { stop_requested, elapsed });
    relay::polls_compare_time_and_size(config, run(config, inputs), stop_requested, elapsed);
}

/// An event of another process in a selected class, in scope and let through by the
/// filter, where there is one, is delivered, wherever it comes in a capture; its size
/// goes to the bytes in full, and it counts once.
pub proof fn wanted_event_is_recorded(
    config: RelayConfig,
    inputs: Seq<RelayInput>,
    pid: u32,
    class: EventClass,
    filter_match: Option<bool>,
    byte_size: usize,
)
    requires
        pid != config.own_pid,
        match class {
            EventClass::Process => config.monitors@.contains(MonitorSource::Process),
            EventClass::File => config.monitors@.contains(MonitorSource::File),
            EventClass::Registry => config.monitors@.contains(MonitorSource::Registry),
            EventClass::Network => config.monitors@.contains(MonitorSource::Network),
            EventClass::Profiling => true,
            EventClass::Other => true,
        },
        filter_match != Some(false),
        legal(config, inputs),
        run(config, inputs).phase == RelayPhase::Receiving,
    ensures
        ({
            let received = inputs.push(RelayInput::Received { pid, class });
            let judged = received.push(
                RelayInput::Judged { in_scope: true, filter_match, byte_size },
            );
            &&& legal(config, judged)
            &&& answer_at(config, judged, judged.len() - 2) == RelayAction::ObserveAndJudge
            &&& answer_at(config, judged, judged.len() - 1) == (RelayAction::Deliver {
                persist: config.mode != CaptureMode::Transient,
                publish: config.mode != CaptureMode::Recorded,
            })
            &&& run(config, judged).written == run(config, inputs).written + 1
            &&& run(config, inputs).bytes + byte_size <= usize::MAX ==> run(config, judged).bytes
                == run(config, inputs).bytes + byte_size
            &&& run(config, inputs).bytes + byte_size > usize::MAX ==> run(config, judged).bytes
                == usize::MAX
        }),
{
    let first = RelayInput::Received { pid, class };
    let second = RelayInput::Judged { in_scope: true, filter_match, byte_size };
    let received = inputs.push(first);
    let judged = received.push(second);
    captures_go_input_by_input(config, inputs, first);
    captures_go_input_by_input(config, received, second);
    relay::events_of_others_in_selected_classes_are_judged(
        config,
        run(config, inputs),
        pid,
        class,
    );
    relay::events_let_through_are_delivered_and_counted(
        config,
        run(config, received),
        true,
        filter_match,
        byte_size,
    );
    relay::inputs_are_taken_in_turn(run(config, inputs).phase, first);
    relay::inputs_are_taken_in_turn(run(config, received).phase, second);
    assert(judged.take(judged.len() - 2) == inputs);
    assert(judged[judged.len() - 2] == first);
}

/// The counters are exact: as many events are recorded as are let through, and
/// their bytes are the sum of the sizes, up to the largest `usize`.
pub proof fn counters_are_exact(config: RelayConfig, inputs: Seq<RelayInput>)
    ensures
        run(config, inputs).written == accepted(inputs),
        run(config, inputs).bytes == relay::saturated(accepted_bytes(inputs)),
    decreases inputs.len(),
{
    if inputs.len() > 0 {
        counters_are_exact(config, inputs.drop_last());
    }
}

/// An event is received only while the recorded bytes are under the limit.
pub proof fn events_are_taken_under_the_limit(config: RelayConfig, inputs: Seq<RelayInput>)
    requires
        legal(config, inputs),
    ensures
        ({
            let m = run(config, inputs);
            m.phase is Receiving || m.phase is Judging ==> m.bytes < config.limits.max_bytes
        }),
    decreases inputs.len(),
{
    if inputs.len() > 0 {
        events_are_taken_under_the_limit(config, inputs.drop_last());
    }
}

proof fn lemma_judged_follows_received(config: RelayConfig, inputs: Seq<RelayInput>, i: int)
    requires
        legal(config, inputs),
        0 <= i < inputs.len(),
        inputs[i] is Judged,
    ensures
        i > 0,
        inputs[i - 1] matches RelayInput::Received { pid, class } && relay::admissible(
            config,
            pid,
            class,
        ),
{
    lemma_legal_prefix(config, inputs, i);
    if i > 0 {
        lemma_run_step(config, inputs, i - 1);
    }
}

/// What is recorded: an event is delivered exactly if it was let through by scope
/// and filter, and it was received just before, from another process than the
/// capturing one and in a selected class. It is written exactly if the capture
/// has a file and handed on exactly if the capture has a receiver.
pub proof fn delivered_events_pass_every_gate(
    config: RelayConfig,
    inputs: Seq<RelayInput>,
    i: int,
)
    requires
        legal(config, inputs),
        0 <= i < inputs.len(),
    ensures
        answer_at(config, inputs, i) is Deliver <==> relay::accepts(inputs[i]),
        answer_at(config, inputs, i) matches RelayAction::Deliver { persist, publish } ==> {
            &&& i > 0
            &&& inputs[i - 1] matches RelayInput::Received { pid, class }
            &&& pid != config.own_pid
            &&& crate::monitors::class_selected(class, config.monitors@)
            &&& persist == config.mode.spec_persists()
            &&& publish == config.mode.spec_publishes()
        },
{
    if relay::accepts(inputs[i]) {
        lemma_judged_follows_received(config, inputs, i);
    }
}

/// Nothing that may be recorded is lost on the way: every received event is shown
/// to the scope, and one from another process in a selected class is judged next;
/// whether it is delivered is then up to scope and filter alone.
pub proof fn admissible_events_are_judged(
    config: RelayConfig,
    inputs: Seq<RelayInput>,
    i: int,
    pid: u32,
    class: EventClass,
)
    requires
        legal(config, inputs),
        0 <= i < inputs.len(),
        inputs[i] == (RelayInput::Received { pid, class }),
    ensures
        answer_at(config, inputs, i) is Observe || answer_at(config, inputs, i) is ObserveAndJudge,
        answer_at(config, inputs, i) is ObserveAndJudge <==> relay::admissible(config, pid, class),
        relay::admissible(config, pid, class) && i + 1 < inputs.len() ==> inputs[i + 1] is Judged,
{
    lemma_run_step(config, inputs, i);
    if i + 1 < inputs.len() {
        lemma_legal_prefix(config, inputs, i + 1);
    }
}

/// The capture's own process is always excluded: what comes from it is never
/// judged, so nothing of it is ever delivered.
pub proof fn own_process_is_excluded(
    config: RelayConfig,
    inputs: Seq<RelayInput>,
    i: int,
    class: EventClass,
)
    requires
        legal(config, inputs),
        0 <= i < inputs.len(),
        inputs[i] == (RelayInput::Received { pid: config.own_pid, class }),
    ensures
        answer_at(config, inputs, i) == RelayAction::Observe,
        i + 1 < inputs.len() ==> !(answer_at(config, inputs, i + 1) is Deliver),
{
    if i + 1 < inputs.len() {
        delivered_events_pass_every_gate(config, inputs, i + 1);
    }
}

/// The size limit is overrun by one event at most: when an event is delivered the
/// bytes recorded before it were under the limit.
pub proof fn size_limit_is_overrun_by_one_event(
    config: RelayConfig,
    inputs: Seq<RelayInput>,
    i: int,
)
    requires
        legal(config, inputs),
        0 <= i < inputs.len(),
        answer_at(config, inputs, i) is Deliver,
    ensures
        accepted_bytes(inputs.take(i)) < config.limits.max_bytes,
        accepted_bytes(inputs.take(i + 1)) < config.limits.max_bytes + relay::size_of_event(
            inputs[i],
        ),
{
    lemma_legal_prefix(config, inputs, i);
    counters_are_exact(config, inputs.take(i));
    events_are_taken_under_the_limit(config, inputs.take(i));
    assert(inputs.take(i + 1).drop_last() == inputs.take(i));
    assert(inputs.take(i + 1).last() == inputs[i]);
}

/// A limit of no bytes records nothing.
pub proof fn zero_size_limit_records_nothing(config: RelayConfig, inputs: Seq<RelayInput>)
    requires
        legal(config, inputs),
        config.limits.max_bytes == 0,
    ensures
        run(config, inputs).written == 0,
    decreases inputs.len(),
{
    if inputs.len() > 0 {
        let front = inputs.drop_last();
        zero_size_limit_records_nothing(config, front);
        events_are_taken_under_the_limit(config, front);
    }
}

/// A transient capture never touches a file: no event is written, and there is
/// nothing to finish at the end.
pub proof fn transient_capture_writes_no_file(
    config: RelayConfig,
    inputs: Seq<RelayInput>,
    i: int,
)
    requires
        config.mode is Transient,
        0 <= i < inputs.len(),
    ensures
        answer_at(config, inputs, i) matches RelayAction::Deliver { persist, .. } ==> !persist,
        answer_at(config, inputs, i) matches RelayAction::Finish { persist, .. } ==> !persist,
{
}

/// A capture ends once: a relay that has stopped waits for nothing, so its last
/// input is the one that stopped it, and the answer to that names the reason.
pub proof fn capture_ends_once(
    config: RelayConfig,
    inputs: Seq<RelayInput>,
    i: int,
    reason: StoppedReason,
)
    requires
        legal(config, inputs),
        0 <= i < inputs.len(),
    ensures
        answer_at(config, inputs, i) == (RelayAction::Finish {
            reason,
            persist: config.mode.spec_persists(),
        }) ==> i == inputs.len() - 1 && run(config, inputs).phase == RelayPhase::Stopped(reason),
        run(config, inputs).phase == RelayPhase::Stopped(reason) && i == inputs.len() - 1
            ==> answer_at(config, inputs, i) == (RelayAction::Finish {
            reason,
            persist: config.mode.spec_persists(),
        }),
{
    lemma_run_step(config, inputs, i);
    lemma_legal_prefix(config, inputs, i);
    if i + 1 < inputs.len() {
        lemma_legal_prefix(config, inputs, i + 1);
    } else {
        assert(inputs.take(i + 1) == inputs);
    }
}

/// Why a capture ends: by hand exactly if the last poll saw a stop request; by the
/// clock exactly if it saw the duration pass and no request; by size exactly if it
/// saw neither and the recorded bytes have reached the limit; and otherwise only
/// by disconnection. Without a duration limit the clock never ends it.
pub proof fn reasons_are_true(
    config: RelayConfig,
    inputs: Seq<RelayInput>,
    reason: StoppedReason,
)
    requires
        legal(config, inputs),
        run(config, inputs).phase == RelayPhase::Stopped(reason),
    ensures
        inputs.len() > 0,
        reason is Disconnected <==> inputs.last() is Disconnected,
        !(reason is Disconnected) ==> inputs.last() is Polled,
        inputs.last() matches RelayInput::Polled { stop_requested, elapsed } ==> {
            &&& reason is Manual <==> stop_requested
            &&& reason is Duration <==> !stop_requested && relay::time_is_up(
                config.limits,
                elapsed,
            )
            &&& reason is SizeLimit <==> !stop_requested && !relay::time_is_up(
                config.limits,
                elapsed,
            )
        },
        reason is SizeLimit ==> accepted_bytes(inputs) >= config.limits.max_bytes,
        config.limits.duration is None ==> !(reason is Duration),
{
    counters_are_exact(config, inputs);
}

/// Without a duration limit, and with less recorded than the size limit, a capture
/// runs until it is stopped by hand or the driver disconnects.
pub proof fn unlimited_capture_runs_until_stopped(
    config: RelayConfig,
    inputs: Seq<RelayInput>,
    reason: StoppedReason,
)
    requires
        legal(config, inputs),
        run(config, inputs).phase == RelayPhase::Stopped(reason),
        config.limits.duration is None,
        accepted_bytes(inputs) < config.limits.max_bytes,
    ensures
        reason is Manual || reason is Disconnected,
{
    reasons_are_true(config, inputs, reason);
}

/// A poll stops the capture exactly if it sees a stop request, or the duration
/// over, or the recorded events at the size limit; else an event is awaited.
pub proof fn polls_stop_at_the_limits(
    config: RelayConfig,
    inputs: Seq<RelayInput>,
    stop_requested: bool,
    elapsed: u128,
)
    requires
        legal(config, inputs),
        inputs.len() > 0,
        inputs.last() == (RelayInput::Polled { stop_requested, elapsed }),
    ensures
        run(config, inputs).phase is Stopped <==> {
            ||| stop_requested
            ||| relay::time_is_up(config.limits, elapsed)
            ||| accepted_bytes(inputs) >= config.limits.max_bytes
        },
        !(run(config, inputs).phase is Stopped) ==> answer_at(config, inputs, inputs.len() - 1)
            == (RelayAction::Receive { timeout_millis: relay::RECEIVE_TIMEOUT_MILLIS }),
{
    counters_are_exact(config, inputs);
    assert(inputs.take(inputs.len() - 1) == inputs.drop_last());
}

/// A stop request is answered at the next poll, and a poll is never far: of any
/// three inputs in a row one is a poll.
pub proof fn polls_come_within_three_inputs(
    config: RelayConfig,
    inputs: Seq<RelayInput>,
    i: int,
)
    requires
        legal(config, inputs),
        0 <= i,
        i + 2 < inputs.len(),
    ensures
        inputs[i] is Polled || inputs[i + 1] is Polled || inputs[i + 2] is Polled,
{
    lemma_legal_prefix(config, inputs, i);
    lemma_legal_prefix(config, inputs, i + 1);
    lemma_legal_prefix(config, inputs, i + 2);
    lemma_run_step(config, inputs, i);
    lemma_run_step(config, inputs, i + 1);
}

} // verus!
