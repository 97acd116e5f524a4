use recall::format::csv_text;
use recall::models::{Command, Timestamp};

/// 2026-01-15 10:00:00 UTC.
fn jan_15_2026_10am() -> Timestamp {
    Timestamp::from_unix(1768471200, 0).unwrap()
}

fn make_command(id: i64, command: &str, exit_code: i32) -> Command {
    Command {
        id,
        command: command.to_string(),
        timestamp: jan_15_2026_10am(),
        session_id: Some("sess1".to_string()),
        cwd: Some("/home/cliff".to_string()),
        exit_code,
        shell: Some("bash".to_string()),
        hostname: Some("cliffbox".to_string()),
        metadata: None,
    }
}

// ── CSV ───────────────────────────────────────────────────────────────────────

fn commands_to_csv(cmds: &[Command]) -> String {
    csv_text(cmds).unwrap()
}

#[test]
fn csv_has_header_row() {
    let cmds = vec![make_command(1, "ls", 0)];
    let csv = commands_to_csv(&cmds);
    let first_line = csv.lines().next().unwrap();
    assert_eq!(
        first_line,
        "id,command,timestamp,session_id,cwd,exit_code,shell,hostname"
    );
}

#[test]
fn csv_row_count_matches_commands() {
    let cmds = vec![
        make_command(1, "ls", 0),
        make_command(2, "pwd", 0),
        make_command(3, "whoami", 0),
    ];
    let csv = commands_to_csv(&cmds);
    // header + 3 data rows
    let lines: Vec<&str> = csv.lines().collect();
    assert_eq!(lines.len(), 4);
}

#[test]
fn csv_contains_command_text() {
    let cmds = vec![make_command(1, "cargo test", 0)];
    let csv = commands_to_csv(&cmds);
    assert!(csv.contains("cargo test"));
}

#[test]
fn csv_exit_code_in_row() {
    let cmds = vec![make_command(1, "bad_cmd", 127)];
    let csv = commands_to_csv(&cmds);
    assert!(csv.contains("127"));
}

#[test]
fn csv_empty_slice_only_has_header() {
    let cmds: Vec<Command> = vec![];
    let csv = commands_to_csv(&cmds);
    let lines: Vec<&str> = csv.lines().collect();
    assert_eq!(lines.len(), 1);
    assert!(lines[0].starts_with("id,"));
}

#[test]
fn csv_optional_fields_empty_when_none() {
    let cmd = Command {
        id: 1,
        command: "echo hi".to_string(),
        timestamp: jan_15_2026_10am(),
        session_id: None,
        cwd: None,
        exit_code: 0,
        shell: None,
        hostname: None,
        metadata: None,
    };
    let csv = commands_to_csv(&[cmd]);
    // All optional fields should be empty strings, not "null"
    assert!(!csv.contains("null"));
}

#[test]
fn csv_id_is_correct() {
    let cmds = vec![make_command(42, "ls", 0)];
    let csv = commands_to_csv(&cmds);
    let data_line = csv.lines().nth(1).unwrap();
    assert!(data_line.starts_with("42,"));
}

#[test]
fn csv_commands_with_commas_are_quoted() {
    let cmd = Command {
        id: 1,
        command: "echo hello, world".to_string(),
        timestamp: jan_15_2026_10am(),
        session_id: None,
        cwd: None,
        exit_code: 0,
        shell: None,
        hostname: None,
        metadata: None,
    };
    let csv = commands_to_csv(&[cmd]);
    // The csv crate should quote the field containing a comma
    assert!(csv.contains("\"echo hello, world\""));
}
