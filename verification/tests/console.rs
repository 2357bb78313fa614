use tessera::console::{command_from_parts, parse_stdin_line, StdinCmd, StdinLine, Usage};
use tessera::tasks::Priority;

fn cmd(line: &str) -> StdinLine {
    parse_stdin_line(line).expect("line should parse")
}

#[test]
fn console_blank_and_simple_words() {
    assert_eq!(cmd("   "), StdinLine::Blank);
    assert_eq!(cmd("status"), StdinLine::Command(StdinCmd::Status));
    assert_eq!(cmd(" s "), StdinLine::Command(StdinCmd::Status));
    assert_eq!(cmd("map"), StdinLine::Command(StdinCmd::ShowMap));
    assert_eq!(cmd("rand"), StdinLine::Command(StdinCmd::RandomTask));
    assert_eq!(cmd("hist"), StdinLine::Command(StdinCmd::History));
    assert_eq!(cmd("h"), StdinLine::Command(StdinCmd::Help));
}

#[test]
fn console_list_commands() {
    assert_eq!(cmd("list shelves"), StdinLine::Command(StdinCmd::ListShelves));
    assert_eq!(cmd("list drop"), StdinLine::Command(StdinCmd::ListDropoffs));
    assert_eq!(cmd("list station extra"), StdinLine::Command(StdinCmd::ListStations));
    assert_eq!(cmd("list"), StdinLine::Usage(Usage::List));
    assert_eq!(cmd("list robots"), StdinLine::Usage(Usage::List));
}

#[test]
fn console_add_named_locations_are_upper_cased() {
    assert_eq!(
        cmd("add s1 d2"),
        StdinLine::Command(StdinCmd::AddTask { pickup: (10001, 0), dropoff: (20002, 0) })
    );
    assert_eq!(
        cmd("add S3 x9"),
        StdinLine::Command(StdinCmd::AddTask { pickup: (10003, 0), dropoff: (0, 0) })
    );
}

#[test]
fn console_add_by_coordinates() {
    assert_eq!(
        cmd("add 5 5 8 8"),
        StdinLine::Command(StdinCmd::AddTask { pickup: (5, 5), dropoff: (8, 8) })
    );
    assert_eq!(cmd("add 5 5 8 x"), StdinLine::Usage(Usage::AddCoords));
    assert_eq!(cmd("add 5"), StdinLine::Usage(Usage::Add));
}

#[test]
fn console_mass_add() {
    assert_eq!(
        cmd("mass_add 250 60"),
        StdinLine::Command(StdinCmd::MassAdd { count: 250, dropoff_percent: Some("60".to_string()) })
    );
    assert_eq!(cmd("mass 3"), StdinLine::Command(StdinCmd::MassAdd { count: 3, dropoff_percent: None }));
    assert_eq!(cmd("massadd 0"), StdinLine::Usage(Usage::MassAdd));
    assert_eq!(cmd("mass_add"), StdinLine::Usage(Usage::MassAdd));
    assert_eq!(cmd("mass_add 99999999999"), StdinLine::Usage(Usage::MassAdd));
}

#[test]
fn console_cancel_and_priority() {
    assert_eq!(cmd("cancel 12"), StdinLine::Command(StdinCmd::CancelTask { task_id: 12 }));
    assert_eq!(cmd("cancel x"), StdinLine::Usage(Usage::Cancel));
    assert_eq!(
        cmd("priority 4 HIGH"),
        StdinLine::Command(StdinCmd::SetPriority { task_id: 4, priority: Priority::High })
    );
    assert_eq!(
        cmd("priority 4 c"),
        StdinLine::Command(StdinCmd::SetPriority { task_id: 4, priority: Priority::Critical })
    );
    assert_eq!(cmd("priority 4 urgent"), StdinLine::Usage(Usage::Priority));
    // Wrong argument counts fall through to the unknown-command hint.
    assert_eq!(cmd("cancel 1 2"), StdinLine::Usage(Usage::Unknown("cancel".to_string())));
    assert_eq!(cmd("Status"), StdinLine::Usage(Usage::Unknown("Status".to_string())));
}

#[test]
fn console_named_add_with_multibyte_name_is_undefined() {
    assert!(parse_stdin_line("add é1 d1").is_none());
    assert!(parse_stdin_line("add s1 d99999999999999999999").is_some());
    assert!(parse_stdin_line("add s18446744073709551615 d1").is_none());
}

#[test]
fn console_command_from_given_parts() {
    let parts: Vec<Vec<char>> = vec!["add".chars().collect(), "q".chars().collect(), "w".chars().collect()];
    assert_eq!(
        command_from_parts(&parts, "S7", "D1", ""),
        StdinLine::Command(StdinCmd::AddTask { pickup: (10007, 0), dropoff: (20001, 0) })
    );
}
