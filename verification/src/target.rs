//! What a capture is aimed at, and how it starts.
use crate::capture::{CaptureLimits, CaptureMode};
use crate::monitors::{MonitorFlags, MonitorSource};
use crate::relay::RelayConfig;
use crate::session::SessionError;
use crate::text;
use vstd::prelude::*;

verus! {

/// The capture target ("who" and "what"). The names, pids, children and launched
/// command make up the dynamic scope; `filter` is the static capture filter, an
/// expression that is carried along as it is; `monitors` selects the sources.
pub struct TargetSpec<F> {
    pub process_names: Vec<String>,
    pub pids: Vec<u32>,
    pub include_children: bool,
    /// The command to start, program first, or `None` to start nothing.
    pub launch: Option<Vec<String>>,
    pub monitors: MonitorFlags,
    pub filter: Option<F>,
}

impl<F> Default for TargetSpec<F> {
    /// Any process with its children, every source, no filter, nothing launched.
    fn default() -> (r: Self)
        ensures
            r.process_names@ == Seq::<String>::empty(),
            r.pids@ == Seq::<u32>::empty(),
            r.include_children,
            r.launch is None,
            r.monitors@ == Set::<MonitorSource>::full(),
            r.filter is None,
    {
        TargetSpec {
            process_names: Vec::new(),
            pids: Vec::new(),
            include_children: true,
            launch: None,
            monitors: MonitorFlags::all(),
            filter: None,
        }
    }
}

/// A process that was running when the capture started.
pub struct RunningProcess {
    pub pid: u32,
    /// The file name of its image, without directories.
    pub base_name: String,
}

/// One step of starting a capture. What a failed step does to the start is up to
/// [`after_step`] and [`after_spawn`].
#[derive(Clone, Copy, Debug, PartialEq, Eq, Structural)]
pub enum StartupStep {
    /// Load the driver if need be and connect to it.
    Connect,
    /// Have network addresses resolved to host names.
    ResolveAddresses,
    /// Enable the selected sources.
    StartMonitors(MonitorFlags),
    /// Set up the scope and add the running processes that match by name.
    SeedScope,
    /// Start the command and add its process, if it starts, to the scope.
    Launch,
    /// Start relaying events.
    SpawnRelay,
}

/// Whether `base_name` is one of `names`, up to the case of ASCII letters.
pub open spec fn is_named(names: Seq<String>, base_name: Seq<char>) -> bool {
    exists|i: int|
        0 <= i < names.len() && text::same_ignoring_case(#[trigger] names[i]@, base_name)
}

/// The pids of the processes that match one of `names`, in the order in which the
/// processes are listed.
pub open spec fn pids_named(names: Seq<String>, processes: Seq<RunningProcess>) -> Seq<u32> {
    processes.filter_map(
        |p: RunningProcess|
            if is_named(names, p.base_name@) {
                Some(p.pid)
            } else {
                None
            },
    )
}

/// The pids that are added to a new scope: those of the running processes that
/// match by name, then that of the launched process, if one was launched.
pub open spec fn pids_seeded(
    names: Seq<String>,
    processes: Seq<RunningProcess>,
    launched: Option<u32>,
) -> Seq<u32> {
    pids_named(names, processes) + match launched {
        Some(p) => seq![p],
        None => seq![],
    }
}

/// What the outcome of a step makes of the start: a failure of the driver ends it
/// with that failure, except in launching.
pub open spec fn step_result<E>(step: StartupStep, outcome: Result<(), E>) -> Result<
    (),
    SessionError<E>,
> {
    match outcome {
        Err(e) => if step is Launch {
            Ok(())
        } else {
            Err(SessionError::Driver(e))
        },
        Ok(_) => Ok(()),
    }
}

/// What a start comes to after steps with the given outcomes: a step is taken only
/// if no step before it ended the start.
pub open spec fn start_result<E>(
    steps: Seq<StartupStep>,
    outcomes: Seq<Result<(), E>>,
) -> Result<(), SessionError<E>>
    decreases outcomes.len(),
{
    if outcomes.len() == 0 {
        Ok(())
    } else {
        match start_result(steps, outcomes.drop_last()) {
            Err(e) => Err(e),
            Ok(_) => step_result(steps[outcomes.len() - 1], outcomes.last()),
        }
    }
}

/// What the relay of a capture of `monitors` works with.
pub open spec fn config_for(
    monitors: MonitorFlags,
    own_pid: u32,
    limits: CaptureLimits,
    mode: CaptureMode,
) -> RelayConfig {
    RelayConfig { own_pid, monitors, limits, mode }
}

/// The relay works with the sources of the target, and with the pid, the limits and the
/// mode that it is given, none of them changed.
pub proof fn relay_gets_what_was_asked_for(
    monitors: MonitorFlags,
    own_pid: u32,
    limits: CaptureLimits,
    mode: CaptureMode,
)
    ensures
        ({
            let config = config_for(monitors, own_pid, limits, mode);
            &&& config.own_pid == own_pid
            &&& config.monitors == monitors
            &&& config.limits.max_bytes == limits.max_bytes
            &&& config.limits.duration == limits.duration
            &&& config.mode == mode
        }),
{
}

/// Whether there is a command to start: an empty one starts nothing.
pub open spec fn launches(launch: Option<Vec<String>>) -> bool {
    launch matches Some(argv) && argv@.len() > 0
}

/// The steps of starting a capture of `monitors`, with or without a command.
pub open spec fn startup_sequence(monitors: MonitorFlags, launching: bool) -> Seq<StartupStep> {
    let resolve: Seq<StartupStep> = if monitors@.contains(MonitorSource::Network) {
        seq![StartupStep::ResolveAddresses]
    } else {
        seq![]
    };
    let launch: Seq<StartupStep> = if launching {
        seq![StartupStep::Launch]
    } else {
        seq![]
    };
    seq![StartupStep::Connect] + resolve + seq![
        StartupStep::StartMonitors(monitors),
        StartupStep::SeedScope,
    ] + launch + seq![StartupStep::SpawnRelay]
}

/// Splits a command into its program and the arguments; `None` for an empty one.
pub fn split_command(argv: &[String]) -> (r: Option<(&String, &[String])>)
    ensures
        match r {
            Some((program, args)) => argv@.len() > 0 && *program == argv@[0] && args@
                == argv@.skip(1),
            None => argv@.len() == 0,
        },
        r matches Some((program, args)) ==> seq![*program] + args@ == argv@,
{
    if argv.len() == 0 {
        None
    } else {
        let args = vstd::slice::slice_subrange(argv, 1, argv.len());
        assert(seq![argv@[0]] + args@ =~= argv@);
        Some((&argv[0], args))
    }
}

/// Goes on after a step, or ends the start: where the driver fails the start fails
/// with its error, but a command that cannot be launched does not end it.
pub fn after_step<E>(step: StartupStep, outcome: Result<(), E>) -> (r: Result<
    (),
    SessionError<E>,
>)
    ensures
        r == step_result(step, outcome),
{
    match outcome {
        Ok(_) => Ok(()),
        Err(e) => match step {
            StartupStep::Launch => Ok(()),
            _ => Err(SessionError::Driver(e)),
        },
    }
}

/// What the outcome of starting the relay thread makes of the start.
pub open spec fn spawn_result<T, E>(spawned: Result<T, String>) -> Result<T, SessionError<E>> {
    match spawned {
        Ok(thread) => Ok(thread),
        Err(reason) => Err(SessionError::Spawn(reason)),
    }
}

/// A start has the thread that was started and no other, and where there is none it
/// ends with the reason for that, whatever it says.
pub proof fn spawned_thread_or_its_reason<T, E>(
    spawned: Result<T, String>,
    thread: T,
    reason: String,
)
    ensures
        spawn_result::<T, E>(spawned) == Ok::<T, SessionError<E>>(thread) <==> spawned == Ok::<
            T,
            String,
        >(thread),
        spawn_result::<T, E>(spawned) == Err::<T, SessionError<E>>(SessionError::Spawn(reason))
            <==> spawned == Err::<T, String>(reason),
{
}

/// Takes the started relay thread, or ends the start with the reason why there is
/// none.
pub fn after_spawn<T, E>(spawned: Result<T, String>) -> (r: Result<T, SessionError<E>>)
    ensures
        r == match spawned {
            Ok(thread) => Ok(thread),
            Err(reason) => Err(SessionError::<E>::Spawn(reason)),
        },
        r == spawn_result::<T, E>(spawned),
{
    match spawned {
        Ok(thread) => Ok(thread),
        Err(reason) => Err(SessionError::Spawn(reason)),
    }
}

impl<F> TargetSpec<F> {
    fn names_process(&self, base_name: &str) -> (r: bool)
        ensures
            r == is_named(self.process_names@, base_name@),
    {
        let mut i: usize = 0;
        while i < self.process_names.len()
            invariant
                i <= self.process_names@.len(),
                forall|j: int|
                    0 <= j < i ==> !text::same_ignoring_case(
                        #[trigger] self.process_names@[j]@,
                        base_name@,
                    ),
            decreases self.process_names@.len() - i,
        {
            if text::eq_ignore_ascii_case(self.process_names[i].as_str(), base_name) {
                return true;
            }
            i += 1;
        }
        false
    }

    /// The pids of the running processes that the scope starts out with because
    /// their image matches one of the process names, in either case.
    pub fn matching_pids(&self, processes: &[RunningProcess]) -> (r: Vec<u32>)
        ensures
            r@ == pids_named(self.process_names@, processes@),
    {
        let mut out: Vec<u32> = Vec::new();
        let mut i: usize = 0;
        while i < processes.len()
            invariant
                i <= processes@.len(),
                out@ == pids_named(self.process_names@, processes@.take(i as int)),
            decreases processes@.len() - i,
        {
            if self.names_process(processes[i].base_name.as_str()) {
                out.push(processes[i].pid);
            }
            proof {
                let next = processes@.take(i + 1);
                assert(next.drop_last() == processes@.take(i as int));
                assert(next.last() == processes@[i as int]);
                assert(out@ =~= pids_named(self.process_names@, next));
            }
            i += 1;
        }
        assert(processes@.take(i as int) == processes@);
        out
    }

    /// The pids that are added to the new scope: those of the running processes
    /// that match by name, then that of the launched process, if there is one.
    pub fn scope_pids(&self, processes: &[RunningProcess], launched: Option<u32>) -> (r: Vec<u32>)
        ensures
            r@ == pids_seeded(self.process_names@, processes@, launched),
    {
        let mut pids = self.matching_pids(processes);
        if let Some(pid) = launched {
            pids.push(pid);
        }
        assert(pids@ =~= pids_seeded(self.process_names@, processes@, launched));
        pids
    }

    /// What the relay of this capture works with.
    pub fn relay_config(
        &self,
        own_pid: u32,
        limits: CaptureLimits,
        mode: CaptureMode,
    ) -> (r: RelayConfig)
        ensures
            r == (RelayConfig { own_pid, monitors: self.monitors, limits, mode }),
            r == config_for(self.monitors, own_pid, limits, mode),
    {
        RelayConfig { own_pid, monitors: self.monitors, limits, mode }
    }

    /// The steps that start this capture, in order.
    pub fn startup_steps(&self) -> (r: Vec<StartupStep>)
        ensures
            r@ == startup_sequence(self.monitors, launches(self.launch)),
    {
        let mut steps: Vec<StartupStep> = Vec::new();
        steps.push(StartupStep::Connect);
        if self.monitors.contains(MonitorSource::Network) {
            steps.push(StartupStep::ResolveAddresses);
        }
        steps.push(StartupStep::StartMonitors(self.monitors));
        steps.push(StartupStep::SeedScope);
        if let Some(argv) = &self.launch {
            if argv.len() > 0 {
                steps.push(StartupStep::Launch);
            }
        }
        steps.push(StartupStep::SpawnRelay);
        assert(steps@ =~= startup_sequence(self.monitors, launches(self.launch)));
        steps
    }
}

/// A start connects first and relays last. The sources are enabled once, after
/// address resolution was switched on and before anything is launched, so that
/// the first events of a launched process are seen; and the scope is set up
/// before the launched process is added to it. Addresses are resolved exactly if
/// network events are selected, and something is launched exactly if there is a
/// command.
pub proof fn startup_is_ordered(monitors: MonitorFlags, launching: bool, i: int)
    requires
        0 <= i < startup_sequence(monitors, launching).len(),
    ensures
        ({
            let steps = startup_sequence(monitors, launching);
            &&& steps[i] == StartupStep::Connect <==> i == 0
            &&& steps[i] == StartupStep::SpawnRelay <==> i == steps.len() - 1
            &&& steps[i] == StartupStep::StartMonitors(monitors) <==> i == steps.index_of(
                StartupStep::StartMonitors(monitors),
            )
            &&& steps[i] == StartupStep::ResolveAddresses ==> i < steps.index_of(
                StartupStep::StartMonitors(monitors),
            )
            &&& steps[i] == StartupStep::SeedScope ==> i == steps.index_of(
                StartupStep::StartMonitors(monitors),
            ) + 1
            &&& steps[i] == StartupStep::Launch ==> i == steps.index_of(StartupStep::SeedScope) + 1
            &&& steps.contains(StartupStep::ResolveAddresses) <==> monitors@.contains(
                MonitorSource::Network,
            )
            &&& steps.contains(StartupStep::Launch) <==> launching
        }),
{
    let steps = startup_sequence(monitors, launching);
    let start = StartupStep::StartMonitors(monitors);
    let at: int = if monitors@.contains(MonitorSource::Network) {
        2
    } else {
        1
    };
    assert(steps[at] == start);
    assert(steps[at + 1] == StartupStep::SeedScope);
    assert(steps.index_of(start) == at);
    assert(steps.index_of(StartupStep::SeedScope) == at + 1);
    if monitors@.contains(MonitorSource::Network) {
        assert(steps[1] == StartupStep::ResolveAddresses);
    }
    if launching {
        assert(steps[at + 2] == StartupStep::Launch);
    }
}

/// The steps of a start, written out for each of the four kinds of start.
pub proof fn startup_written_out(monitors: MonitorFlags, launching: bool)
    ensures
        monitors@.contains(MonitorSource::Network) && launching ==> startup_sequence(
            monitors,
            launching,
        ) == seq![
            StartupStep::Connect,
            StartupStep::ResolveAddresses,
            StartupStep::StartMonitors(monitors),
            StartupStep::SeedScope,
            StartupStep::Launch,
            StartupStep::SpawnRelay,
        ],
        monitors@.contains(MonitorSource::Network) && !launching ==> startup_sequence(
            monitors,
            launching,
        ) == seq![
            StartupStep::Connect,
            StartupStep::ResolveAddresses,
            StartupStep::StartMonitors(monitors),
            StartupStep::SeedScope,
            StartupStep::SpawnRelay,
        ],
        !monitors@.contains(MonitorSource::Network) && launching ==> startup_sequence(
            monitors,
            launching,
        ) == seq![
            StartupStep::Connect,
            StartupStep::StartMonitors(monitors),
            StartupStep::SeedScope,
            StartupStep::Launch,
            StartupStep::SpawnRelay,
        ],
        !monitors@.contains(MonitorSource::Network) && !launching ==> startup_sequence(
            monitors,
            launching,
        ) == seq![
            StartupStep::Connect,
            StartupStep::StartMonitors(monitors),
            StartupStep::SeedScope,
            StartupStep::SpawnRelay,
        ],
{
    let steps = startup_sequence(monitors, launching);
    if monitors@.contains(MonitorSource::Network) && launching {
        assert(steps =~= seq![
            StartupStep::Connect,
            StartupStep::ResolveAddresses,
            StartupStep::StartMonitors(monitors),
            StartupStep::SeedScope,
            StartupStep::Launch,
            StartupStep::SpawnRelay,
        ]);
    } else if monitors@.contains(MonitorSource::Network) {
        assert(steps =~= seq![
            StartupStep::Connect,
            StartupStep::ResolveAddresses,
            StartupStep::StartMonitors(monitors),
            StartupStep::SeedScope,
            StartupStep::SpawnRelay,
        ]);
    } else if launching {
        assert(steps =~= seq![
            StartupStep::Connect,
            StartupStep::StartMonitors(monitors),
            StartupStep::SeedScope,
            StartupStep::Launch,
            StartupStep::SpawnRelay,
        ]);
    } else {
        assert(steps =~= seq![
            StartupStep::Connect,
            StartupStep::StartMonitors(monitors),
            StartupStep::SeedScope,
            StartupStep::SpawnRelay,
        ]);
    }
}

/// There is something to launch exactly if a command is given that has a program,
/// however many arguments follow.
pub proof fn commands_with_a_program_are_launched(argv: Vec<String>)
    ensures
        launches(Some(argv)) <==> argv@.len() >= 1,
        !launches(None),
{
}

/// A name matches a process exactly if some name in the list, at whatever place, is
/// as long as the base name and has the same characters, up to the case of ASCII
/// letters.
pub proof fn names_match_letter_by_letter(names: Seq<String>, base_name: Seq<char>, i: int)
    requires
        0 <= i < names.len(),
    ensures
        names[i]@.len() == base_name.len() && (forall|j: int|
            0 <= j < base_name.len() ==> {
                ||| #[trigger] names[i]@[j] == base_name[j]
                ||| 65 <= names[i]@[j] as u32 <= 90 && base_name[j] as u32 == names[i]@[j] as u32
                    + 32
                ||| 65 <= base_name[j] as u32 <= 90 && names[i]@[j] as u32 == base_name[j] as u32
                    + 32
            }) ==> is_named(names, base_name),
        is_named(names, base_name) ==> exists|k: int|
            0 <= k < names.len() && (#[trigger] names[k]@).len() == base_name.len()
                && text::same_ignoring_case(names[k]@, base_name),
{
    text::case_is_ignored_in_ascii_letters_only(names[i]@, base_name);
    if is_named(names, base_name) {
        let k = choose|k: int|
            0 <= k < names.len() && text::same_ignoring_case(#[trigger] names[k]@, base_name);
        text::case_is_ignored_in_ascii_letters_only(names[k]@, base_name);
        assert(names[k]@.len() == base_name.len());
    }
}

/// Every running process that a name stands for is seeded, whatever the name and
/// wherever name and process stand in their lists: it is enough that the two texts
/// are equally long and have the same characters, up to the case of ASCII letters.
pub proof fn matching_process_is_seeded(
    names: Seq<String>,
    processes: Seq<RunningProcess>,
    i: int,
    k: int,
)
    requires
        0 <= i < names.len(),
        0 <= k < processes.len(),
        names[i]@.len() == processes[k].base_name@.len(),
        forall|j: int|
            0 <= j < names[i]@.len() ==> {
                ||| #[trigger] names[i]@[j] == processes[k].base_name@[j]
                ||| 65 <= names[i]@[j] as u32 <= 90 && processes[k].base_name@[j] as u32
                    == names[i]@[j] as u32 + 32
                ||| 65 <= processes[k].base_name@[j] as u32 <= 90 && names[i]@[j] as u32
                    == processes[k].base_name@[j] as u32 + 32
            },
    ensures
        pids_named(names, processes).contains(processes[k].pid),
{
    names_match_letter_by_letter(names, processes[k].base_name@, i);
    seeded_pids_match_by_name(names, processes, processes[k].pid);
}

/// A process is always matched by its own exact name.
pub proof fn exact_name_is_matched(
    names: Seq<String>,
    processes: Seq<RunningProcess>,
    i: int,
    k: int,
)
    requires
        0 <= i < names.len(),
        0 <= k < processes.len(),
        names[i]@ == processes[k].base_name@,
    ensures
        pids_named(names, processes).contains(processes[k].pid),
{
    matching_process_is_seeded(names, processes, i, k);
}

/// Nothing is seeded without a name for it: a seeded pid belongs to a listed process
/// that has, up to the case of ASCII letters, the name at some place in the list.
pub proof fn seeded_process_has_a_name(
    names: Seq<String>,
    processes: Seq<RunningProcess>,
    pid: u32,
)
    requires
        pids_named(names, processes).contains(pid),
    ensures
        exists|i: int, k: int|
            0 <= i < names.len() && 0 <= k < processes.len() && processes[k].pid == pid
                && #[trigger] text::same_ignoring_case(names[i]@, processes[k].base_name@),
{
    seeded_pids_match_by_name(names, processes, pid);
    let k = choose|k: int|
        0 <= k < processes.len() && (#[trigger] processes[k]).pid == pid && is_named(
            names,
            processes[k].base_name@,
        );
    let i = choose|i: int|
        0 <= i < names.len() && text::same_ignoring_case(
            #[trigger] names[i]@,
            processes[k].base_name@,
        );
    assert(text::same_ignoring_case(names[i]@, processes[k].base_name@));
}

/// Processes are seeded one by one, in the order in which they are listed: one more
/// process adds its pid at the end if some name matches it, and nothing otherwise.
pub proof fn processes_are_seeded_in_order(
    names: Seq<String>,
    processes: Seq<RunningProcess>,
    process: RunningProcess,
)
    ensures
        pids_named(names, Seq::<RunningProcess>::empty()) == Seq::<u32>::empty(),
        (exists|i: int|
            0 <= i < names.len() && text::same_ignoring_case(
                #[trigger] names[i]@,
                process.base_name@,
            )) ==> pids_named(names, processes.push(process)) == pids_named(names, processes)
            + seq![process.pid],
        (forall|i: int|
            0 <= i < names.len() ==> !text::same_ignoring_case(
                #[trigger] names[i]@,
                process.base_name@,
            )) ==> pids_named(names, processes.push(process)) == pids_named(names, processes),
{
    let more = processes.push(process);
    assert(more.drop_last() == processes);
    assert(more.last() == process);
}

/// A pid is seeded exactly if a listed process has it and a matching name.
pub proof fn seeded_pids_match_by_name(
    names: Seq<String>,
    processes: Seq<RunningProcess>,
    pid: u32,
)
    ensures
        pids_named(names, processes).contains(pid) <==> exists|i: int|
            0 <= i < processes.len() && (#[trigger] processes[i]).pid == pid && is_named(
                names,
                processes[i].base_name@,
            ),
    decreases processes.len(),
{
    if processes.len() > 0 {
        let front = processes.drop_last();
        let last = processes.last();
        seeded_pids_match_by_name(names, front, pid);
        let before = pids_named(names, front);
        let after = pids_named(names, processes);
        let hit = is_named(names, last.base_name@);
        if hit {
            assert(after == before + seq![last.pid]);
        } else {
            assert(after == before);
        }
        if before.contains(pid) {
            let i = choose|i: int|
                0 <= i < front.len() && (#[trigger] front[i]).pid == pid && is_named(
                    names,
                    front[i].base_name@,
                );
            assert(processes[i] == front[i]);
            let j = choose|j: int| 0 <= j < before.len() && before[j] == pid;
            assert(after[j] == pid);
        }
        if hit && last.pid == pid {
            assert(after[before.len() as int] == pid);
            assert(processes[processes.len() - 1] == last);
        }
        if after.contains(pid) && !(hit && last.pid == pid) {
            let j = choose|j: int| 0 <= j < after.len() && after[j] == pid;
            assert(before[j] == pid);
        }
        assert forall|i: int|
            0 <= i < processes.len() && (#[trigger] processes[i]).pid == pid && is_named(
                names,
                processes[i].base_name@,
            ) implies after.contains(pid) by {
            if i < front.len() {
                assert(front[i] == processes[i]);
            }
        }
    }
}

/// What one step makes of a start: it goes on after success, and after a failed
/// launch; after any other failure it ends with that very failure.
pub proof fn failures_end_a_start_except_in_launching<E>(step: StartupStep, e: E)
    ensures
        step_result(step, Ok::<(), E>(())) == Ok::<(), SessionError<E>>(()),
        step == StartupStep::Launch ==> step_result(step, Err::<(), E>(e)) == Ok::<
            (),
            SessionError<E>,
        >(()),
        step != StartupStep::Launch ==> step_result(step, Err::<(), E>(e)) == Err::<
            (),
            SessionError<E>,
        >(SessionError::Driver(e)),
{
}

/// A start fails with the error of the first step in which the driver fails, but
/// for launching; where there is no such step, it goes through.
pub proof fn start_fails_at_the_first_failing_step<E>(
    steps: Seq<StartupStep>,
    outcomes: Seq<Result<(), E>>,
    i: int,
)
    requires
        outcomes.len() <= steps.len(),
        0 <= i <= outcomes.len(),
        forall|j: int|
            0 <= j < i ==> (#[trigger] outcomes[j]) is Ok || steps[j] == StartupStep::Launch,
    ensures
        i == outcomes.len() ==> start_result(steps, outcomes) == Ok::<(), SessionError<E>>(()),
        i < outcomes.len() && outcomes[i] is Err && steps[i] != StartupStep::Launch
            ==> start_result(steps, outcomes) == Err::<(), SessionError<E>>(
            SessionError::Driver(outcomes[i]->Err_0),
        ),
    decreases outcomes.len(),
{
    if outcomes.len() > 0 {
        let front = outcomes.drop_last();
        assert forall|j: int| 0 <= j < i && j < front.len() implies (#[trigger] front[j]) is Ok
            || steps[j] == StartupStep::Launch by {
            assert(front[j] == outcomes[j]);
        }
        if i == outcomes.len() {
            start_fails_at_the_first_failing_step(steps, front, i - 1);
            assert(outcomes[i - 1] is Ok || steps[i - 1] == StartupStep::Launch);
        } else {
            start_fails_at_the_first_failing_step(steps, front, i);
        }
    }
}

/// A launched process is in the scope from the start, whatever else is running;
/// where nothing could be launched, the matching processes alone are.
pub proof fn launched_process_joins_the_scope(
    names: Seq<String>,
    processes: Seq<RunningProcess>,
    pid: u32,
)
    ensures
        pids_seeded(names, processes, Some(pid)).contains(pid),
        pids_seeded(names, processes, Some(pid)) == pids_named(names, processes) + seq![pid],
        pids_seeded(names, processes, None) == pids_named(names, processes),
{
    let pids = pids_seeded(names, processes, Some(pid));
    assert(pids[pids.len() - 1] == pid);
    assert(pids_seeded(names, processes, None) =~= pids_named(names, processes));
}

/// Without process names no running process is seeded.
pub proof fn no_names_seed_nothing(processes: Seq<RunningProcess>)
    ensures
        pids_named(Seq::<String>::empty(), processes) == Seq::<u32>::empty(),
    decreases processes.len(),
{
    if processes.len() > 0 {
        no_names_seed_nothing(processes.drop_last());
    }
}

} // verus!
