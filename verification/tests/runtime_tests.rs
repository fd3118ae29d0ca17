use girasol::dispatch::{dispatch, notify_completion, reply_to_connection, Request};
use girasol::execution::{plan_invocation, ExecPhase, TraceExec};
use girasol::model::{Frequency, TraceContent, TraceModel};
use girasol::notifier::{Frame, OutboundNotifier};
use girasol::store::{DataActor, DbMsg, DbReply, TraceError};
use girasol::supervisor::HouseKeeper;

fn temp_store() -> DataActor {
    let db = sled::Config::new().temporary(true).open().unwrap();
    DataActor::new(db)
}

fn probe_model(name: &str) -> TraceModel {
    TraceModel {
        name: name.to_string(),
        lasting: 3,
        interval: 10,
        content: TraceContent::SystemTap {
            function_list: vec!["do_sys_open".to_string()],
            process: "postgres".to_string(),
            args: vec![],
            envs: vec![],
        },
    }
}

#[test]
fn invocation_for_systemtap_content() {
    let content = TraceContent::SystemTap {
        function_list: vec!["vfs_read".to_string()],
        process: "1234".to_string(),
        args: vec!["--verbose".to_string()],
        envs: vec![("HOME".to_string(), "/root".to_string())],
    };
    let inv = plan_invocation(&content);
    assert_eq!(inv.program, "stap");
    assert_eq!(
        inv.args,
        vec![
            "-x".to_string(),
            "1234".to_string(),
            "vfs_read".to_string(),
            "--verbose".to_string()
        ]
    );
    assert_eq!(inv.envs, vec![("HOME".to_string(), "/root".to_string())]);
}

#[test]
fn invocation_for_perf_content_with_each_frequency() {
    let base = |freq: Frequency| TraceContent::PerfBranch {
        frequency: freq,
        absolute_path: "/usr/bin/payments".to_string(),
        additional_args: vec!["--quiet".to_string()],
    };
    let inv = plan_invocation(&base(Frequency::Max));
    assert_eq!(inv.program, "perf");
    assert_eq!(
        inv.args,
        vec!["record", "-b", "-F", "max", "--quiet", "/usr/bin/payments"]
            .into_iter()
            .map(str::to_string)
            .collect::<Vec<_>>()
    );
    let inv = plan_invocation(&base(Frequency::Default));
    assert_eq!(
        inv.args,
        vec!["record", "-b", "--quiet", "/usr/bin/payments"]
            .into_iter()
            .map(str::to_string)
            .collect::<Vec<_>>()
    );
    let inv = plan_invocation(&base(Frequency::Specific(4321)));
    assert_eq!(
        inv.args,
        vec!["record", "-b", "-F", "4321", "--quiet", "/usr/bin/payments"]
            .into_iter()
            .map(str::to_string)
            .collect::<Vec<_>>()
    );
    assert_eq!(inv.envs, vec![]);
}

#[test]
fn execution_completes_after_exactly_three_ticks() {
    let mut exec = TraceExec::new("probe1".to_string(), 3, 10, false, String::new());
    assert_eq!(exec.phase, ExecPhase::Starting);
    exec.spawn_succeeded();
    assert_eq!(exec.phase, ExecPhase::Running);
    exec.tick();
    assert_eq!(exec.phase, ExecPhase::Running);
    assert_eq!(exec.remaining, 2);
    exec.tick();
    assert_eq!(exec.phase, ExecPhase::Running);
    assert_eq!(exec.remaining, 1);
    exec.tick();
    assert_eq!(exec.phase, ExecPhase::Completed);
    assert_eq!(exec.remaining, 0);
}

#[test]
fn spawn_failure_is_terminal() {
    let mut exec = TraceExec::new("probe1".to_string(), 3, 10, false, String::new());
    let err = exec.spawn_failed();
    assert_eq!(err, TraceError::ProcessSpawn);
    assert_eq!(exec.phase, ExecPhase::Failed);
}

#[test]
fn stop_then_clean_exit_completes() {
    let mut exec = TraceExec::new("probe1".to_string(), 3, 10, false, String::new());
    exec.spawn_succeeded();
    exec.stop_requested();
    assert_eq!(exec.phase, ExecPhase::Stopping);
    exec.child_exited(true);
    assert_eq!(exec.phase, ExecPhase::Completed);
}

#[test]
fn admission_allows_exactly_one_start_per_name() {
    let mut keeper = HouseKeeper::new();
    let name = "probe1".to_string();
    keeper.start(&name, 3, 10, false, String::new()).unwrap();
    match keeper.start(&name, 3, 10, false, String::new()) {
        Err(TraceError::Conflict(n)) => assert_eq!(n, "probe1"),
        other => panic!("expected a conflict, got {:?}", other),
    }
    assert_eq!(keeper.running_count(), 1);
    // Another name is unaffected by the admission rule.
    keeper.start(&"probe2".to_string(), 1, 1, false, String::new()).unwrap();
    assert_eq!(keeper.running_count(), 2);
}

#[test]
fn terminal_execution_frees_the_name_for_a_new_start() {
    let mut keeper = HouseKeeper::new();
    let name = "probe1".to_string();
    keeper.start(&name, 2, 10, false, String::new()).unwrap();
    // No interval can elapse before the child process is up.
    match keeper.note_interval(&name) {
        Err(TraceError::ProcessExit) => {},
        other => panic!("still starting, expected a process-state error, got {:?}", other),
    }
    keeper.note_spawned(&name).unwrap();
    assert_eq!(keeper.phase_of(&name), Some(ExecPhase::Running));
    assert_eq!(keeper.note_interval(&name).unwrap(), ExecPhase::Running);
    assert_eq!(keeper.note_interval(&name).unwrap(), ExecPhase::Completed);
    // The terminal transition deregistered the entry, so the name is free.
    assert_eq!(keeper.phase_of(&name), None);
    keeper.start(&name, 2, 10, false, String::new()).unwrap();
}

#[test]
fn interval_notes_drive_completion_and_deregistration() {
    let mut keeper = HouseKeeper::new();
    let name = "probe1".to_string();
    keeper.start(&name, 1, 10, false, String::new()).unwrap();
    assert_eq!(keeper.phase_of(&name), Some(ExecPhase::Starting));
    keeper.note_spawned(&name).unwrap();
    assert_eq!(keeper.note_interval(&name).unwrap(), ExecPhase::Completed);
    assert_eq!(keeper.running_count(), 0);
    match keeper.note_interval(&name) {
        Err(TraceError::NotFound(n)) => assert_eq!(n, "probe1"),
        other => panic!("expected not-found, got {:?}", other),
    }
}

#[test]
fn stop_signals_without_removing_the_entry() {
    let mut keeper = HouseKeeper::new();
    let name = "probe1".to_string();
    keeper.start(&name, 3, 10, false, String::new()).unwrap();
    keeper.stop(&name).unwrap();
    assert_eq!(keeper.phase_of(&name), Some(ExecPhase::Stopping));
    assert_eq!(keeper.running_count(), 1);
    match keeper.stop(&"ghost".to_string()) {
        Err(TraceError::NotFound(n)) => assert_eq!(n, "ghost"),
        other => panic!("expected not-found, got {:?}", other),
    }
    keeper.deregister(&name);
    assert_eq!(keeper.running_count(), 0);
    // Deregistering again is idempotent.
    keeper.deregister(&name);
    assert_eq!(keeper.running_count(), 0);
    keeper.start(&name, 3, 10, false, String::new()).unwrap();
}

#[test]
fn shutdown_signals_every_execution() {
    let mut keeper = HouseKeeper::new();
    keeper.start(&"a".to_string(), 3, 10, false, String::new()).unwrap();
    keeper.start(&"b".to_string(), 3, 10, false, String::new()).unwrap();
    keeper.shutdown_all();
    assert_eq!(keeper.phase_of(&"a".to_string()), Some(ExecPhase::Stopping));
    assert_eq!(keeper.phase_of(&"b".to_string()), Some(ExecPhase::Stopping));
    assert_eq!(keeper.running_count(), 2);
}

#[test]
fn notifier_delivers_in_enqueue_order() {
    let mut out = OutboundNotifier::new();
    assert!(out.take_next().is_none());
    reply_to_connection(&mut out, Ok(DbReply::Success));
    notify_completion(&mut out, "probe1".to_string(), true);
    reply_to_connection(&mut out, Err(TraceError::Transport));
    match out.take_next() {
        Some(Frame::Reply(Ok(DbReply::Success))) => {},
        other => panic!("expected the first reply, got a different frame: {}", frame_tag(&other)),
    }
    match out.take_next() {
        Some(Frame::Notice { name, success }) => {
            assert_eq!(name, "probe1");
            assert!(success);
        },
        other => panic!("expected the notice, got a different frame: {}", frame_tag(&other)),
    }
    match out.take_next() {
        Some(Frame::Reply(Err(TraceError::Transport))) => {},
        other => panic!("expected the last reply, got a different frame: {}", frame_tag(&other)),
    }
    assert!(out.take_next().is_none());
}

fn frame_tag(f: &Option<Frame>) -> &'static str {
    match f {
        None => "none",
        Some(Frame::Reply(_)) => "reply",
        Some(Frame::Notice { .. }) => "notice",
    }
}

#[test]
fn dispatcher_scenario_with_probe1() {
    let mut store = temp_store();
    let mut keeper = HouseKeeper::new();
    let model = probe_model("probe1");

    let r = dispatch(Request::Add(model.clone()), &mut store, &mut keeper).unwrap();
    assert_eq!(r, DbReply::Success);

    let r = dispatch(Request::Get("probe1".to_string()), &mut store, &mut keeper).unwrap();
    assert_eq!(r, DbReply::GetResult(model.clone()));

    match dispatch(Request::Add(model), &mut store, &mut keeper) {
        Err(TraceError::Conflict(n)) => assert_eq!(n, "probe1"),
        other => panic!("expected a conflict, got {:?}", other),
    }

    let r = dispatch(
        Request::Start { name: "probe1".to_string(), round: 3, pattern: String::new() },
        &mut store,
        &mut keeper,
    )
    .unwrap();
    assert_eq!(r, DbReply::Success);
    assert_eq!(keeper.phase_of(&"probe1".to_string()), Some(ExecPhase::Starting));

    // A concurrent second start of the same name is refused.
    match dispatch(
        Request::Start { name: "probe1".to_string(), round: 3, pattern: String::new() },
        &mut store,
        &mut keeper,
    ) {
        Err(TraceError::Conflict(n)) => assert_eq!(n, "probe1"),
        other => panic!("expected a conflict, got {:?}", other),
    }

    // Removing the definition does not touch the running execution.
    let r = dispatch(Request::Remove("probe1".to_string()), &mut store, &mut keeper).unwrap();
    assert_eq!(r, DbReply::Success);
    match dispatch(Request::Get("probe1".to_string()), &mut store, &mut keeper) {
        Err(TraceError::NotFound(n)) => assert_eq!(n, "probe1"),
        other => panic!("expected not-found, got {:?}", other),
    }
    assert_eq!(keeper.phase_of(&"probe1".to_string()), Some(ExecPhase::Starting));

    // Starting an undefined name reports what is missing.
    match dispatch(
        Request::Start { name: "ghost".to_string(), round: 1, pattern: String::new() },
        &mut store,
        &mut keeper,
    ) {
        Err(TraceError::NotFound(n)) => assert_eq!(n, "ghost"),
        other => panic!("expected not-found, got {:?}", other),
    }

    let r = dispatch(Request::Kill, &mut store, &mut keeper).unwrap();
    assert_eq!(r, DbReply::Success);
    assert!(!store.accepts());
    assert_eq!(keeper.phase_of(&"probe1".to_string()), Some(ExecPhase::Stopping));
}

#[test]
fn local_waiter_unblocks_when_the_counter_reaches_zero() {
    // The observable contract of a local start: the caller stays blocked
    // while the budget is positive and wakes exactly when it reaches zero.
    let mut keeper = HouseKeeper::new();
    let name = "probe1".to_string();
    keeper.start(&name, 3, 10, false, String::new()).unwrap();
    keeper.note_spawned(&name).unwrap();
    let mut woke_at: Option<usize> = None;
    for step in 1..=10usize {
        match keeper.note_interval(&name).unwrap() {
            ExecPhase::Completed => {
                woke_at = Some(step);
                break;
            }
            other => assert_eq!(other, ExecPhase::Running),
        }
    }
    assert_eq!(woke_at, Some(3));
    assert_eq!(keeper.phase_of(&name), None);
}

#[test]
fn spawn_note_needs_a_starting_entry() {
    let mut keeper = HouseKeeper::new();
    let name = "probe1".to_string();
    match keeper.note_spawned(&name) {
        Err(TraceError::NotFound(n)) => assert_eq!(n, "probe1"),
        other => panic!("expected not-found, got {:?}", other),
    }
    keeper.start(&name, 3, 10, false, String::new()).unwrap();
    keeper.note_spawned(&name).unwrap();
    // A second spawn report finds the entry already past Starting.
    match keeper.note_spawned(&name) {
        Err(TraceError::ProcessExit) => {},
        other => panic!("expected a process-state error, got {:?}", other),
    }
}
