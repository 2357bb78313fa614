use tessera::orchestrator::{
    crate_index, crate_name, Command, ProcessState, Processes, RunMode, VisibilityChange, CRATE_ORDER,
};

#[test]
fn test_parse_run_all() {
    assert_eq!(Command::parse("run"), Command::RunAll(None));
    assert_eq!(Command::parse("run all"), Command::RunAll(None));
    assert_eq!(Command::parse("up"), Command::RunAll(None));
    assert_eq!(Command::parse("UP ALL"), Command::RunAll(None));
    assert_eq!(Command::parse("run -l 3"), Command::RunAll(Some("3".to_string())));
    assert_eq!(
        Command::parse("run --layout cinematic1"),
        Command::RunAll(Some("cinematic1".to_string()))
    );
    assert_eq!(Command::parse("run --layout 9"), Command::RunAll(Some("9".to_string())));
}

#[test]
fn test_parse_run_specific() {
    assert_eq!(
        Command::parse("run mock_firmware"),
        Command::Run {
            name: "mock_firmware".to_string(),
            layout: None,
        }
    );
    assert_eq!(
        Command::parse("run visualizer --layout 2"),
        Command::Run {
            name: "visualizer".to_string(),
            layout: Some("2".to_string()),
        }
    );
    assert_eq!(
        Command::parse("run -l test1 scheduler"),
        Command::Run {
            name: "scheduler".to_string(),
            layout: Some("test1".to_string()),
        }
    );
}

#[test]
fn test_parse_kill() {
    assert_eq!(Command::parse("kill"), Command::KillAll);
    assert_eq!(Command::parse("kill all"), Command::KillAll);
    assert_eq!(Command::parse("down"), Command::KillAll);
    assert_eq!(Command::parse("kill coordinator"), Command::Kill("coordinator".to_string()));
}

#[test]
fn test_parse_runtime_commands() {
    assert_eq!(Command::parse("pause"), Command::Pause);
    assert_eq!(Command::parse("p"), Command::Pause);
    assert_eq!(Command::parse("resume"), Command::Resume);
    assert_eq!(Command::parse("r"), Command::Resume);
    assert_eq!(Command::parse("verbose on"), Command::Verbose(true));
    assert_eq!(Command::parse("verbose off"), Command::Verbose(false));
    assert_eq!(Command::parse("chaos on"), Command::Chaos(true));
    assert_eq!(Command::parse("chaos off"), Command::Chaos(false));
}

#[test]
fn test_parse_show_hide() {
    assert_eq!(Command::parse("show visualizer"), Command::ShowOutput("visualizer".to_string(), true));
    assert_eq!(Command::parse("hide coordinator"), Command::ShowOutput("coordinator".to_string(), false));
    assert_eq!(Command::parse("show all"), Command::ShowOutput("all".to_string(), true));
    assert_eq!(Command::parse("hide all"), Command::ShowOutput("all".to_string(), false));
}

#[test]
fn test_parse_meta() {
    assert_eq!(Command::parse("help"), Command::Help);
    assert_eq!(Command::parse("quit"), Command::Quit);
    assert_eq!(Command::parse(""), Command::Empty);
}

#[test]
fn test_parse_unknown() {
    match Command::parse("foobar") {
        Command::Unknown(s) => assert_eq!(s, "foobar"),
        _ => panic!("Expected Unknown"),
    }
}

#[test]
fn command_parse_ignores_case_and_surrounding_space() {
    assert_eq!(Command::parse("  Kill Coordinator  "), Command::Kill("coordinator".to_string()));
    assert_eq!(Command::parse("STATUS"), Command::Status);
    assert_eq!(Command::parse("restart"), Command::Restart);
    match Command::parse("  FooBar  ") {
        Command::Unknown(s) => assert_eq!(s, "foobar"),
        _ => panic!("Expected Unknown"),
    }
}

#[test]
fn test_crate_order_contains_all() {
    assert!(CRATE_ORDER.contains(&"coordinator"));
    assert!(CRATE_ORDER.contains(&"mock_firmware"));
    assert!(CRATE_ORDER.contains(&"scheduler"));
    assert!(CRATE_ORDER.contains(&"visualizer"));
}

#[test]
fn crate_index_and_name_agree() {
    for (i, name) in CRATE_ORDER.iter().enumerate() {
        assert_eq!(crate_index(name), Some(i));
        assert_eq!(crate_name(i), *name);
    }
    assert_eq!(crate_index("renderer"), None);
}

#[test]
fn test_processes_new_empty() {
    let p = Processes::new("assets/layouts/l1.layout".to_string());
    assert_eq!(p.states().len(), CRATE_ORDER.len());
    assert!(p.states().iter().all(|state| *state == ProcessState::NotStarted));
}

#[test]
fn test_process_state_from_observation() {
    assert_eq!(
        ProcessState::from_observation(ProcessState::NotStarted, false),
        ProcessState::NotStarted
    );
    assert_eq!(
        ProcessState::from_observation(ProcessState::NotStarted, true),
        ProcessState::Running
    );
    assert_eq!(
        ProcessState::from_observation(ProcessState::Running, false),
        ProcessState::Exited
    );
    assert_eq!(
        ProcessState::from_observation(ProcessState::Exited, false),
        ProcessState::Exited
    );
    assert_eq!(
        ProcessState::from_observation(ProcessState::Exited, true),
        ProcessState::Running
    );
}

#[test]
fn test_clear_exited_states() {
    let mut p = Processes::new("assets/layouts/l1.layout".to_string());
    p.set_state("coordinator", ProcessState::Exited);
    p.set_state("scheduler", ProcessState::Running);

    assert_eq!(p.clear_exited_states(), 1);
    assert_eq!(p.process_state("coordinator"), ProcessState::NotStarted);
    assert_eq!(p.process_state("scheduler"), ProcessState::Running);
}

#[test]
fn processes_reconcile_and_snapshot() {
    let mut p = Processes::new("a.layout".to_string());
    assert!(!p.any_running());
    p.reconcile_all(&[true, false, true, false]);
    assert!(p.any_running());
    assert_eq!(p.process_state("coordinator"), ProcessState::Running);
    assert_eq!(p.process_state("mock_firmware"), ProcessState::NotStarted);
    let snapshot = p.status_snapshot(&[false, false, true, false]);
    assert_eq!(snapshot.len(), 4);
    assert_eq!(p.process_state("coordinator"), ProcessState::Exited);
    assert_eq!(p.process_state("scheduler"), ProcessState::Running);
    assert_eq!(p.reconcile_process("coordinator", true), ProcessState::Running);
}

#[test]
fn processes_output_visibility() {
    let mut p = Processes::new("a.layout".to_string());
    assert_eq!(p.show_output("renderer"), VisibilityChange::UnknownCrate);
    assert!(!p.is_windowed("coordinator"));
    assert_eq!(p.show_output("coordinator"), VisibilityChange::Shown);
    assert!(p.is_windowed("coordinator"));
    assert!(!p.is_windowed("scheduler"));
    assert_eq!(p.hide_output("coordinator"), VisibilityChange::Hidden);
    assert!(!p.is_windowed("coordinator"));
    assert_eq!(p.show_output("all"), VisibilityChange::AllShown);
    assert!(p.is_windowed("visualizer"));
    assert_eq!(p.hide_output("all"), VisibilityChange::AllHidden);
    assert!(!p.is_windowed("visualizer"));
}

#[test]
fn processes_select_run_keeps_layout_without_selector() {
    let mut p = Processes::new("a.layout".to_string());
    p.select_run(None, RunMode::Release);
    assert_eq!(p.active_layout(), "a.layout");
    assert_eq!(p.active_mode(), RunMode::Release);
    p.select_run(Some("b.layout"), RunMode::Debug);
    assert_eq!(p.active_layout(), "b.layout");
    assert_eq!(p.active_mode(), RunMode::Debug);
}

#[test]
fn process_state_labels() {
    assert!(ProcessState::Running.label().contains("running"));
    assert!(ProcessState::Exited.label().contains("exited"));
    assert!(ProcessState::NotStarted.label().contains("not started"));
}
