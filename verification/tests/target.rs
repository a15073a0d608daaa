use procmon_capture::capture::{CaptureLimits, CaptureMode};
use procmon_capture::monitors::{parse_monitors, MonitorFlags};
use procmon_capture::relay::RelayConfig;
use procmon_capture::session::SessionError;
use procmon_capture::target::{
    after_spawn, after_step, split_command, RunningProcess, StartupStep, TargetSpec,
};

fn process(pid: u32, base_name: &str) -> RunningProcess {
    RunningProcess { pid, base_name: base_name.to_string() }
}

#[test]
fn default_target_is_everything() {
    let spec: TargetSpec<()> = TargetSpec::default();
    assert!(spec.process_names.is_empty());
    assert!(spec.pids.is_empty());
    assert!(spec.include_children);
    assert!(spec.launch.is_none());
    assert_eq!(spec.monitors, MonitorFlags::all());
    assert!(spec.filter.is_none());
}

#[test]
fn running_processes_are_seeded_by_name_in_either_case() {
    let mut spec: TargetSpec<()> = TargetSpec::default();
    let running = vec![
        process(4, "System"),
        process(20, "NOTEPAD.exe"),
        process(30, "notepad.exe.bak"),
        process(10, "cmd.EXE"),
        process(20, "notepad.exe"),
    ];
    assert!(spec.matching_pids(&running).is_empty());
    spec.process_names = vec!["cmd.exe".to_string(), "Notepad.exe".to_string()];
    assert_eq!(spec.matching_pids(&running), vec![20, 10, 20]);
    assert!(spec.matching_pids(&[]).is_empty());
}

#[test]
fn commands_split_into_program_and_arguments() {
    assert!(split_command(&[]).is_none());
    let argv = vec!["prog".to_string(), "-a".to_string(), "b".to_string()];
    let (program, args) = split_command(&argv).unwrap();
    assert_eq!(program, "prog");
    assert_eq!(args, &argv[1..]);
    let (program, args) = split_command(&argv[2..]).unwrap();
    assert_eq!(program, "b");
    assert!(args.is_empty());
}

#[test]
fn a_full_start_has_every_step_in_order() {
    let spec: TargetSpec<()> = TargetSpec {
        launch: Some(vec!["prog".to_string()]),
        ..TargetSpec::default()
    };
    assert_eq!(
        spec.startup_steps(),
        vec![
            StartupStep::Connect,
            StartupStep::ResolveAddresses,
            StartupStep::StartMonitors(MonitorFlags::all()),
            StartupStep::SeedScope,
            StartupStep::Launch,
            StartupStep::SpawnRelay,
        ]
    );
}

#[test]
fn a_start_leaves_out_what_was_not_asked_for() {
    let monitors = parse_monitors(&["file".to_string()]);
    let mut spec: TargetSpec<()> = TargetSpec { monitors, ..TargetSpec::default() };
    let expected = vec![
        StartupStep::Connect,
        StartupStep::StartMonitors(monitors),
        StartupStep::SeedScope,
        StartupStep::SpawnRelay,
    ];
    assert_eq!(spec.startup_steps(), expected);
    spec.launch = Some(vec![]);
    assert_eq!(spec.startup_steps(), expected);
}

#[test]
fn a_launched_process_joins_the_scope_after_the_matching_ones() {
    let mut spec: TargetSpec<()> = TargetSpec::default();
    spec.process_names = vec!["a.exe".to_string()];
    let running = vec![process(1, "A.EXE"), process(2, "b.exe"), process(3, "a.exe")];
    assert_eq!(spec.scope_pids(&running, Some(9)), vec![1, 3, 9]);
    assert_eq!(spec.scope_pids(&running, None), vec![1, 3]);
    assert_eq!(spec.scope_pids(&[], Some(9)), vec![9]);
    assert!(spec.scope_pids(&[], None).is_empty());
}

#[test]
fn a_failing_driver_ends_the_start_but_a_failing_launch_does_not() {
    for step in [
        StartupStep::Connect,
        StartupStep::ResolveAddresses,
        StartupStep::StartMonitors(MonitorFlags::all()),
        StartupStep::SeedScope,
        StartupStep::SpawnRelay,
    ] {
        assert!(after_step::<u8>(step, Ok(())).is_ok());
        assert!(matches!(after_step(step, Err(5u8)), Err(SessionError::Driver(5))));
    }
    assert!(after_step::<u8>(StartupStep::Launch, Ok(())).is_ok());
    assert!(after_step(StartupStep::Launch, Err(5u8)).is_ok());
}

#[test]
fn a_thread_that_cannot_start_ends_the_start() {
    let spawned: Result<u32, SessionError<u8>> = after_spawn(Ok(3));
    assert!(matches!(spawned, Ok(3)));
    let failed: Result<u32, SessionError<u8>> = after_spawn(Err("no room".to_string()));
    assert!(matches!(failed, Err(SessionError::Spawn(reason)) if reason == "no room"));
}

#[test]
fn the_relay_gets_the_monitors_of_the_target() {
    let monitors = parse_monitors(&["reg".to_string()]);
    let spec: TargetSpec<()> = TargetSpec { monitors, ..TargetSpec::default() };
    let limits = CaptureLimits { max_bytes: 8, duration: Some(9) };
    assert_eq!(
        spec.relay_config(11, limits, CaptureMode::Streaming),
        RelayConfig { own_pid: 11, monitors, limits, mode: CaptureMode::Streaming }
    );
}
