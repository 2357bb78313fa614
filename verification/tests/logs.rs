use tessera::logmerge::{crate_label, dedup_firmware_lines, is_excluded_label, parse_log_line, sort_by_time, LogEntry};

fn entry(ts: &str, line: &str, label: &str) -> LogEntry {
    LogEntry { timestamp: ts.to_string(), line: line.to_string(), label: label.to_string() }
}

#[test]
fn log_labels_and_exclusion() {
    assert_eq!(crate_label("scheduler"), "Scheduler");
    assert_eq!(crate_label("Coordinator"), "Coordinator");
    assert!(is_excluded_label("Firmware"));
    assert!(!is_excluded_label("Scheduler"));
}

#[test]
fn log_lines_are_read_with_their_stamp() {
    let e = parse_log_line("[12:00:01.500] Task 3 created", "Scheduler").unwrap();
    assert_eq!(e.timestamp, "12:00:01.500");
    assert_eq!(e.line, "[12:00:01.500] Scheduler Task 3 created");
    assert_eq!(e.label, "Scheduler");
    assert!(parse_log_line("continuation line", "Scheduler").is_none());
    assert!(parse_log_line("[no closing bracket", "Scheduler").is_none());
    let bare = parse_log_line("[t]", "X").unwrap();
    assert_eq!(bare.line, "[t] X ");
}

#[test]
fn log_entries_sort_stably_by_time() {
    let es = vec![
        entry("12:00:02.000", "b", "S"),
        entry("12:00:01.000", "a", "S"),
        entry("12:00:02.000", "c", "C"),
        entry("11:59:59.999", "z", "C"),
    ];
    let sorted = sort_by_time(es);
    let lines: Vec<&str> = sorted.iter().map(|e| e.line.as_str()).collect();
    assert_eq!(lines, vec!["z", "a", "b", "c"]);
}

#[test]
fn repeated_firmware_commands_are_dropped() {
    let es = vec![
        entry("1", "[1] Firmware Robot 3 executed command: Stop", "Firmware"),
        entry("2", "[2] Firmware Robot 3 executed command: Stop", "Firmware"),
        entry("3", "[3] Firmware Robot 4 executed command: Stop", "Firmware"),
        entry("4", "[4] Scheduler tick", "Scheduler"),
        entry("5", "[5] Firmware Robot 3 executed command: Drop", "Firmware"),
        entry("6", "[6] Firmware Robot 3 executed command: Stop", "Firmware"),
        entry("7", "[7] Firmware battery low", "Firmware"),
        entry("8", "[8] Firmware battery low", "Firmware"),
    ];
    let lines = dedup_firmware_lines(&es);
    assert_eq!(
        lines,
        vec![
            "[1] Firmware Robot 3 executed command: Stop",
            "[3] Firmware Robot 4 executed command: Stop",
            "[4] Scheduler tick",
            "[5] Firmware Robot 3 executed command: Drop",
            "[6] Firmware Robot 3 executed command: Stop",
            "[7] Firmware battery low",
            "[8] Firmware battery low",
        ]
    );
}
