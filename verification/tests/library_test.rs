use recall::commands::{
    build_empty_reason, check_clean_args, clean_outcome, csv_header, csv_record, export_done_message,
    export_text, export_text_line, found_header, hook_hint, source_command, join_strings, no_results_message, plan_hook, plan_unhook,
    removed_message, validate_format, UnhookStep,
};
use recall::config::{initialized, Config};
use recall::db::{clean_plan, history_query, stats_from, CleanPlan, CommandRow, Database};
use recall::error::RecallErrors;
use recall::format::{busiest_hour_count, csv_text, exit_cell, render_bar, shell_cell};
use recall::models::{home_text_from, relative_time_from_seconds, Command, Timestamp};
use recall::shell::{
    config_path, config_path_segments, config_path_under, detect, hook_body_is_closed, hook_script, install_hook, is_hook_installed, remove_hook,
    Shell, HOOK_END, HOOK_START,
};
use recall::text::{i64_to_string, u64_to_string};
use std::path::PathBuf;

const ALL_SHELLS: [Shell; 4] = [Shell::Bash, Shell::Zsh, Shell::Fish, Shell::PowerShell];

fn jan_15_2026_10am() -> Timestamp {
    Timestamp::from_unix(1768471200, 0).unwrap()
}

fn sample_command(cwd: Option<&str>) -> Command {
    Command {
        id: 7,
        command: "ls -la".to_string(),
        timestamp: jan_15_2026_10am(),
        session_id: None,
        cwd: cwd.map(|c| c.to_string()),
        exit_code: 0,
        shell: None,
        hostname: None,
        metadata: None,
    }
}

// ── hook block ───────────────────────────────────────────────────────────────

#[test]
fn install_marks_hook_installed_for_every_shell() {
    for shell in ALL_SHELLS {
        for content in ["", "x", "a\nb\n", "a\r\nb"] {
            assert!(is_hook_installed(&install_hook(content, hook_script(&shell))));
        }
    }
}

#[test]
fn install_appends_exact_block() {
    let out = install_hook("a\n", "  body  \n");
    assert_eq!(
        out,
        format!("a\n\n{}\nbody\n{}\n", HOOK_START, HOOK_END)
    );
    let out = install_hook("a", "body");
    assert_eq!(out, format!("a\n\n{}\nbody\n{}\n", HOOK_START, HOOK_END));
    let out = install_hook("", "body");
    assert_eq!(out, format!("\n\n{}\nbody\n{}\n", HOOK_START, HOOK_END));
}

#[test]
fn remove_undoes_install_exactly() {
    for shell in ALL_SHELLS {
        let script = hook_script(&shell);
        assert_eq!(remove_hook(&install_hook("a\nb\n", script)), "a\nb\n");
        assert_eq!(remove_hook(&install_hook("x", script)), "x\n");
        assert_eq!(remove_hook(&install_hook("", script)), "");
        assert_eq!(remove_hook(&install_hook("a\n\n\n", script)), "a\n");
        assert_eq!(
            remove_hook(&install_hook("a\n", script)),
            remove_hook("a\n")
        );
    }
}

#[test]
fn remove_without_hook_tidies_trailing_whitespace() {
    assert_eq!(remove_hook("a\n\n\n"), "a\n");
    assert_eq!(remove_hook("a  "), "a\n");
    assert_eq!(remove_hook("  \n\n"), "");
    assert_eq!(remove_hook("a\nb"), "a\nb\n");
}

#[test]
fn remove_normalises_crlf() {
    assert_eq!(remove_hook("a\r\nb\r\n"), "a\nb\n");
    let with_hook = install_hook("a\r\nb\r\n", hook_script(&Shell::Bash));
    assert_eq!(remove_hook(&with_hook), "a\nb\n");
}

#[test]
fn remove_drops_every_block_and_keeps_the_rest() {
    let text = format!(
        "one\n{}\nsecret\n{}\ntwo\n  {}  \nmore\n  {}\nthree\n",
        HOOK_START, HOOK_END, HOOK_START, HOOK_END
    );
    assert_eq!(remove_hook(&text), "one\ntwo\nthree\n");
}

#[test]
fn remove_unterminated_block_drops_to_end() {
    let text = format!("keep\n{}\ngone\n", HOOK_START);
    assert_eq!(remove_hook(&text), "keep\n");
}

#[test]
fn hook_scripts_carry_both_markers() {
    for shell in ALL_SHELLS {
        let s = hook_script(&shell);
        assert!(s.trim_start().starts_with(HOOK_START));
        assert!(s.trim_end().ends_with(HOOK_END));
    }
}

#[test]
fn hook_scripts_close_their_block() {
    for shell in ALL_SHELLS {
        assert!(hook_body_is_closed(hook_script(&shell)));
    }
    assert!(hook_body_is_closed("body"));
    assert!(hook_body_is_closed(""));
    assert!(!hook_body_is_closed(&format!("a\n{}\nb", HOOK_END)));
    // after an early end marker, only blank lines before a new start marker
    assert!(hook_body_is_closed(&format!("a\n{}\n   \n{}\nb", HOOK_END, HOOK_START)));
    assert!(!hook_body_is_closed(&format!("a\n{}\nx\n{}\nb", HOOK_END, HOOK_START)));
}

#[test]
fn remove_undoes_install_for_any_content() {
    let script = hook_script(&Shell::Bash);
    let contents = [
        "a\r".to_string(),
        "a\r\r".to_string(),
        "a\r\n\r".to_string(),
        format!("x\n{}\ny", HOOK_END),
        format!("x\n{}\ny\n", HOOK_START),
        format!("{}\nz\n{}\nw", HOOK_START, HOOK_END),
        "  \t\n".to_string(),
    ];
    for c in contents.iter() {
        assert_eq!(remove_hook(&install_hook(c, script)), remove_hook(c));
    }
    assert_eq!(remove_hook(&install_hook("a\r", script)), "a\n");
    let odd = format!("a\n{}\n   \n{}\nb", HOOK_END, HOOK_START);
    assert_eq!(remove_hook(&install_hook("k\n", &odd)), "k\n");
}

#[test]
fn remove_leaves_no_marker_line() {
    let texts = [
        format!("a\n  {}  \r\nb\n{}\nc", HOOK_START, HOOK_END),
        format!("{}\r\r\n{}\r\n", HOOK_END, HOOK_START),
        format!("x\r\r\r\n{}\n", HOOK_END),
        format!("keep {}\n", HOOK_START),
    ];
    for t in texts.iter() {
        let out = remove_hook(t);
        for line in out.replace("\r\n", "\n").lines() {
            assert_ne!(line.trim(), HOOK_START);
            assert_ne!(line.trim(), HOOK_END);
        }
    }
    assert_eq!(remove_hook(&format!("keep {}\n", HOOK_START)), format!("keep {}\n", HOOK_START));
}

#[test]
fn remove_twice_is_remove_once() {
    let texts = [
        format!("a\n  {}  \r\nb\n{}\nc  \n\n", HOOK_START, HOOK_END),
        "plain\r\ntext\r\n".to_string(),
        format!("{}\nunterminated", HOOK_START),
        String::new(),
    ];
    for t in texts.iter() {
        let once = remove_hook(t);
        assert_eq!(remove_hook(&once), once);
    }
    // a CRLF left behind by the first removal is normalised by the second
    let once = remove_hook("x\r\r\r\ny");
    assert_eq!(once, "x\r\ny\n");
    assert_eq!(remove_hook(&once), "x\ny\n");
}

#[test]
fn remove_keeps_lone_carriage_returns_inside_lines() {
    assert_eq!(remove_hook("a\rb\n\r\n"), "a\rb\n");
    assert_eq!(remove_hook("a\r\nb"), "a\nb\n");
}

#[test]
fn is_hook_installed_finds_marker_anywhere() {
    assert!(is_hook_installed(&format!("x {} y", HOOK_START)));
    assert!(!is_hook_installed(HOOK_END));
    assert!(!is_hook_installed("# >>> recall hook start >>"));
}

// ── shells ───────────────────────────────────────────────────────────────────

#[test]
fn detect_shell_prefers_shell_variable() {
    assert_eq!(detect(Some("/bin/bash".to_string()), true).unwrap(), Shell::Bash);
    assert_eq!(detect(Some("/usr/bin/zsh".to_string()), false).unwrap(), Shell::Zsh);
    assert_eq!(detect(Some("/usr/local/bin/fish".to_string()), false).unwrap(), Shell::Fish);
    assert_eq!(detect(Some("/bin/sh".to_string()), true).unwrap(), Shell::PowerShell);
    assert_eq!(detect(None, true).unwrap(), Shell::PowerShell);
    assert!(matches!(detect(Some("/bin/sh".to_string()), false), Err(RecallErrors::UnknownShell)));
    assert!(matches!(detect(None, false), Err(RecallErrors::UnknownShell)));
}

#[test]
fn shell_names() {
    let names: Vec<&str> = ALL_SHELLS.iter().map(|s| s.name()).collect();
    assert_eq!(names, vec!["bash", "zsh", "fish", "powershell"]);
}

#[test]
fn config_path_is_under_home() {
    if let Some(home) = dirs::home_dir() {
        assert_eq!(config_path(&Shell::Bash, false).unwrap(), home.join(".bashrc"));
        assert_eq!(
            config_path(&Shell::Fish, false).unwrap(),
            home.join(".config").join("fish").join("conf.d").join("recall.fish")
        );
    }
}

#[test]
fn config_path_segments_per_shell() {
    assert_eq!(config_path_segments(&Shell::Bash, false), vec![".bashrc"]);
    assert_eq!(config_path_segments(&Shell::Zsh, true), vec![".zshrc"]);
    assert_eq!(
        config_path_segments(&Shell::Fish, false),
        vec![".config", "fish", "conf.d", "recall.fish"]
    );
    assert_eq!(
        config_path_segments(&Shell::PowerShell, true),
        vec!["Documents", "PowerShell", "Microsoft.PowerShell_profile.ps1"]
    );
    assert_eq!(
        config_path_segments(&Shell::PowerShell, false),
        vec![".config", "powershell", "Microsoft.PowerShell_profile.ps1"]
    );
}

#[test]
fn plan_hook_installs_or_refuses() {
    let w = plan_hook(Some("a\n"), &Shell::Zsh, "/h/.zshrc").unwrap();
    assert!(w.backup);
    assert_eq!(w.content, install_hook("a\n", hook_script(&Shell::Zsh)));
    let w = plan_hook(None, &Shell::Fish, "/h/recall.fish").unwrap();
    assert!(!w.backup);
    assert_eq!(w.content, install_hook("", hook_script(&Shell::Fish)));
    match plan_hook(Some(&w.content), &Shell::Fish, "/h/recall.fish") {
        Err(RecallErrors::HookAlreadyInstalled(p)) => assert_eq!(p, "/h/recall.fish"),
        other => panic!("unexpected {:?}", other),
    }
}

#[test]
fn plan_unhook_per_shell() {
    assert!(matches!(plan_unhook("a\n", &Shell::Bash), UnhookStep::NotInstalled));
    let installed = install_hook("a\n", hook_script(&Shell::Bash));
    match plan_unhook(&installed, &Shell::Bash) {
        UnhookStep::BackupThenWrite(c) => assert_eq!(c, "a\n"),
        other => panic!("unexpected {:?}", other),
    }
    assert!(matches!(plan_unhook(&installed, &Shell::Fish), UnhookStep::BackupThenDelete));
}

// ── models ───────────────────────────────────────────────────────────────────

#[test]
fn relative_time_units_and_plurals() {
    assert_eq!(relative_time_from_seconds(0), "0 seconds ago");
    assert_eq!(relative_time_from_seconds(1), "1 second ago");
    assert_eq!(relative_time_from_seconds(59), "59 seconds ago");
    assert_eq!(relative_time_from_seconds(60), "1 minute ago");
    assert_eq!(relative_time_from_seconds(3599), "59 minutes ago");
    assert_eq!(relative_time_from_seconds(3600), "1 hour ago");
    assert_eq!(relative_time_from_seconds(7200), "2 hours ago");
    assert_eq!(relative_time_from_seconds(86399), "23 hours ago");
    assert_eq!(relative_time_from_seconds(86400), "1 day ago");
    assert_eq!(relative_time_from_seconds(172800), "2 days ago");
    assert_eq!(relative_time_from_seconds(-5), "-5 seconds ago");
}

#[test]
fn relative_time_against_a_given_now() {
    let cmd = sample_command(None);
    let now = Timestamp::from_unix(1768471200 + 3 * 60 + 30, 500).unwrap();
    assert_eq!(cmd.relative_time_at(&now), "3 minutes ago");
    let earlier = Timestamp::from_unix(1768471200 - 1, 999_999_999).unwrap();
    assert_eq!(cmd.relative_time_at(&earlier), "0 seconds ago");
}

#[test]
fn timestamp_text_forms() {
    let t = jan_15_2026_10am();
    assert_eq!(t.to_rfc3339(), "2026-01-15T10:00:00+00:00");
    assert_eq!(t.display(), "2026-01-15 10:00:00");
    let back = Timestamp::parse_or_epoch("2026-01-15T10:00:00+00:00");
    assert_eq!((back.secs(), back.nanos()), (1768471200, 0));
    let bad = Timestamp::parse_or_epoch("yesterday");
    assert_eq!((bad.secs(), bad.nanos()), (0, 0));
    assert!(Timestamp::from_unix(i64::MAX, 0).is_none());
    assert!(Timestamp::from_unix(0, 2_000_000_000).is_none());
}

#[test]
fn display_cwd_replaces_home_prefix() {
    let home = Some("/home/cliff".to_string());
    assert_eq!(sample_command(Some("/home/cliff/src")).display_cwd_with_home(&home), "~/src");
    assert_eq!(sample_command(Some("/tmp")).display_cwd_with_home(&home), "/tmp");
    assert_eq!(sample_command(None).display_cwd_with_home(&home), "—");
    assert_eq!(sample_command(Some("/tmp")).display_cwd_with_home(&None), "/tmp");
    assert_eq!(sample_command(Some("/tmp")).display_cwd_with_home(&Some(String::new())), "~/tmp");
    assert_eq!(sample_command(None).display_cwd(), "—");
}

// ── commands ─────────────────────────────────────────────────────────────────

#[test]
fn empty_history_reasons() {
    assert_eq!(
        build_empty_reason(None, None, false),
        "No commands logged yet. Run 'recall hook' to start automatic logging."
    );
    assert_eq!(
        build_empty_reason(Some("42"), Some("/tmp"), true),
        "No commands found for session \"42\", directory \"/tmp\", failed commands."
    );
    assert_eq!(build_empty_reason(None, None, true), "No commands found for failed commands.");
}

#[test]
fn export_formats() {
    assert!(validate_format("json").is_ok());
    assert!(validate_format("csv").is_ok());
    assert!(validate_format("text").is_ok());
    match validate_format("xml") {
        Err(RecallErrors::InvalidFormat { input }) => assert_eq!(input, "xml"),
        other => panic!("unexpected {:?}", other),
    }
}

#[test]
fn clean_arguments_and_messages() {
    assert!(matches!(check_clean_args(Some("2026-01-01"), None, true), Err(RecallErrors::ConflictingCleanFlags)));
    assert_eq!(check_clean_args(None, None, false).unwrap(), false);
    assert_eq!(check_clean_args(None, None, true).unwrap(), true);
    assert_eq!(check_clean_args(None, Some("2026-01-01"), false).unwrap(), true);
    assert_eq!(clean_outcome(1, true), "Would delete 1 command. Run without --dry-run to confirm.");
    assert_eq!(clean_outcome(0, false), "No commands matched. Nothing was deleted.");
    assert_eq!(clean_outcome(3, false), "✓ Deleted 3 commands.");
}

#[test]
fn search_and_export_messages() {
    assert_eq!(found_header(1, "git"), "  Found 1 result for \"git\"");
    assert_eq!(found_header(2, "git"), "  Found 2 results for \"git\"");
    assert_eq!(no_results_message("docker"), "No results found for \"docker\".");
    assert_eq!(export_done_message(1, "/tmp/e.json", "json"), "✓ Exported 1 command to /tmp/e.json (json)");
    assert_eq!(removed_message(&sample_command(None), "2 days ago"), "✓ Removed: ls -la (logged 2 days ago)");
}

#[test]
fn export_text_joins_lines_in_order() {
    let home = Some("/home/cliff".to_string());
    let a = sample_command(Some("/home/cliff/src"));
    let mut b = sample_command(None);
    b.command = "pwd".to_string();
    assert_eq!(
        export_text(&[a, b], &home),
        "[2026-01-15 10:00:00]  ~/src  ls -la\n[2026-01-15 10:00:00]  —  pwd\n"
    );
    assert_eq!(export_text(&[], &home), "");
}

#[test]
fn shell_activation_hints() {
    assert_eq!(hook_hint(&Shell::Bash), "  Restart your shell or run:  source ~/.bashrc");
    assert_eq!(hook_hint(&Shell::Fish), "  Open a new Fish session to apply changes.");
    assert_eq!(hook_hint(&Shell::PowerShell), "  Restart PowerShell to apply changes.");
    assert_eq!(source_command(&Shell::Zsh), Some("source ~/.zshrc"));
    assert_eq!(source_command(&Shell::PowerShell), None);
}

#[test]
fn export_text_line_format() {
    assert_eq!(export_text_line(&sample_command(None), "~/x"), "[2026-01-15 10:00:00]  ~/x  ls -la\n");
}

#[test]
fn csv_fields() {
    assert_eq!(csv_header().len(), 8);
    let mut c = sample_command(Some("/tmp"));
    c.exit_code = -2;
    assert_eq!(
        csv_record(&c),
        vec!["7", "ls -la", "2026-01-15T10:00:00+00:00", "", "/tmp", "-2", "", ""]
    );
}

#[test]
fn csv_text_is_header_then_quoted_rows() {
    let mut c = sample_command(Some("/tmp"));
    c.command = "echo \"a, b\"".to_string();
    assert_eq!(
        csv_text(&[c]).unwrap(),
        "id,command,timestamp,session_id,cwd,exit_code,shell,hostname\n\
         7,\"echo \"\"a, b\"\"\",2026-01-15T10:00:00+00:00,,/tmp,0,,\n"
    );
    assert_eq!(
        csv_text(&[]).unwrap(),
        "id,command,timestamp,session_id,cwd,exit_code,shell,hostname\n"
    );
}

#[test]
fn decimal_rendering() {
    assert_eq!(i64_to_string(i64::MIN), i64::MIN.to_string());
    assert_eq!(i64_to_string(-1), "-1");
    assert_eq!(i64_to_string(0), "0");
    assert_eq!(u64_to_string(u64::MAX), u64::MAX.to_string());
    assert_eq!(join_strings(&vec!["a".to_string(), "b".to_string()], ", "), "a, b");
}

// ── format ───────────────────────────────────────────────────────────────────

#[test]
fn render_bar_rounds_half_up() {
    assert_eq!(render_bar(3, 10, 10), ("███".to_string(), "░░░░░░░".to_string()));
    assert_eq!(render_bar(1, 2, 1), ("█".to_string(), String::new()));
    assert_eq!(render_bar(1, 3, 20).0.chars().count(), 7);
    assert_eq!(render_bar(10, 10, 16).0.chars().count(), 16);
    assert_eq!(render_bar(0, 10, 4), (String::new(), "░░░░".to_string()));
    assert_eq!(render_bar(0, 0, 3), (String::new(), "░░░".to_string()));
    assert_eq!(render_bar(3, 2, 2), ("███".to_string(), String::new()));
    assert_eq!(render_bar(1, 0, 0), (String::new(), String::new()));
}

#[test]
fn render_bar_cells_add_up_to_width() {
    for max in 1..=12u64 {
        for value in 0..=max {
            for width in [0usize, 1, 7, 16, 20] {
                let (f, e) = render_bar(value, max, width);
                assert_eq!(f.chars().count() + e.chars().count(), width);
            }
        }
    }
}

#[test]
fn table_cells_and_hour_scale() {
    assert_eq!(exit_cell(0), "✓");
    assert_eq!(exit_cell(127), "127");
    assert_eq!(shell_cell(&None), "?");
    assert_eq!(shell_cell(&Some("zsh".to_string())), "zsh");
    assert_eq!(busiest_hour_count(&vec![]), 1);
    assert_eq!(busiest_hour_count(&vec![(1, 3), (2, 9), (5, 4)]), 9);
}

// ── database ─────────────────────────────────────────────────────────────────

#[test]
fn history_query_placeholders() {
    assert!(history_query(false, false, false).ends_with("WHERE 1=1 ORDER BY timestamp DESC LIMIT ?1"));
    assert!(history_query(true, true, true)
        .ends_with("WHERE 1=1 AND session_id = ?2 AND cwd = ?3 AND exit_code != 0 ORDER BY timestamp DESC LIMIT ?1"));
    assert!(history_query(false, true, false).ends_with("WHERE 1=1 AND cwd = ?2 ORDER BY timestamp DESC LIMIT ?1"));
}

#[test]
fn clean_plans() {
    assert!(matches!(clean_plan(None, None, false, true), CleanPlan::Nothing));
    match clean_plan(Some("2026-01-01"), None, false, false) {
        CleanPlan::Delete { sql, params } => {
            assert_eq!(sql, "DELETE FROM commands WHERE timestamp >= ?1");
            assert_eq!(params, vec![Some("2026-01-01".to_string())]);
        }
        other => panic!("unexpected {:?}", other),
    }
    match clean_plan(None, Some("2026-01-01"), false, true) {
        CleanPlan::Count { sql, params } => {
            assert_eq!(sql, "SELECT COUNT(*) FROM commands WHERE timestamp <= ?2 OR date(timestamp) = ?2");
            assert_eq!(params, vec![None, Some("2026-01-01".to_string())]);
        }
        other => panic!("unexpected {:?}", other),
    }
}

fn logged(db: &mut Database, command: &str, when: Timestamp) -> i64 {
    let mut c = sample_command(Some("/home"));
    c.command = command.to_string();
    c.timestamp = when;
    db.insert(&c).unwrap()
}

#[test]
fn clean_by_date_bounds() {
    let mut db = Database::open(&PathBuf::from(":memory:")).unwrap();
    logged(&mut db, "old", Timestamp::from_unix(1704067200, 0).unwrap()); // 2024-01-01
    logged(&mut db, "new", jan_15_2026_10am());
    assert_eq!(db.clean(Some("2025-01-01"), None, false, true).unwrap(), 1);
    assert_eq!(db.clean(None, Some("2025-01-01"), false, true).unwrap(), 1);
    assert_eq!(db.clean(Some("2023-01-01"), Some("2027-01-01"), false, true).unwrap(), 2);
    assert_eq!(db.clean(Some("2025-01-01"), None, false, false).unwrap(), 1);
    let rest = db.export().unwrap();
    assert_eq!(rest.len(), 1);
    assert_eq!(rest[0].command, "old");
}

#[test]
fn clean_upper_bound_takes_its_whole_day() {
    let mut db = Database::open(&PathBuf::from(":memory:")).unwrap();
    logged(&mut db, "morning", jan_15_2026_10am());
    logged(&mut db, "next day", Timestamp::from_unix(1768471200 + 86400, 0).unwrap());
    assert_eq!(db.clean(None, Some("2026-01-15"), false, true).unwrap(), 1);
    assert_eq!(db.clean(Some("2026-01-01"), Some("2026-01-15"), false, true).unwrap(), 1);
    assert_eq!(db.clean(None, Some("2026-01-15T09:00:00+00:00"), false, true).unwrap(), 0);
    assert_eq!(db.clean(None, Some("2026-01-15"), false, false).unwrap(), 1);
    let rest = db.export().unwrap();
    assert_eq!(rest.len(), 1);
    assert_eq!(rest[0].command, "next day");
}

#[test]
fn stored_timestamp_round_trips() {
    let mut db = Database::open(&PathBuf::from(":memory:")).unwrap();
    let t = Timestamp::from_unix(1768471200, 123_456_789).unwrap();
    logged(&mut db, "ts", t);
    let rows = db.export().unwrap();
    assert_eq!((rows[0].timestamp.secs(), rows[0].timestamp.nanos()), (1768471200, 123_456_789));
}

#[test]
fn row_with_bad_timestamp_falls_back_to_epoch() {
    let row = CommandRow {
        id: 3,
        command: "x".to_string(),
        timestamp: "not a time".to_string(),
        session_id: Some("s".to_string()),
        cwd: None,
        exit_code: 2,
        shell: None,
        hostname: Some("h".to_string()),
        metadata: Some("{}".to_string()),
    };
    let c = Database::row_to_command(&row);
    assert_eq!((c.timestamp.secs(), c.timestamp.nanos()), (0, 0));
    assert_eq!(c.id, 3);
    assert_eq!(c.session_id.as_deref(), Some("s"));
    assert_eq!(c.metadata.as_deref(), Some("{}"));
    assert_eq!(c.exit_code, 2);
}

#[test]
fn stats_fall_back_where_queries_fail() {
    let s = stats_from(
        Ok(5),
        Err(rusqlite::Error::QueryReturnedNoRows),
        Ok((Some("2026-01-01".to_string()), None)),
        Some(Ok(-1)),
        vec![("ls".to_string(), 3)],
        vec![],
        vec![(9, 5)],
    );
    assert_eq!(s.total_commands, 5);
    assert_eq!(s.unique_commands, 0);
    assert_eq!(s.date_range, ("2026-01-01".to_string(), String::new()));
    assert_eq!(s.failed_commands, 0);
    assert_eq!(s.top_commands, vec![("ls".to_string(), 3)]);
    assert_eq!(s.most_active_hours, vec![(9, 5)]);
    let none = stats_from(
        Err(rusqlite::Error::QueryReturnedNoRows),
        Ok(2),
        Err(rusqlite::Error::QueryReturnedNoRows),
        None,
        vec![],
        vec![],
        vec![],
    );
    assert_eq!(none.total_commands, 0);
    assert_eq!(none.unique_commands, 2);
    assert_eq!(none.date_range, (String::new(), String::new()));
    assert_eq!(none.failed_commands, 0);
    let some = stats_from(Ok(4), Ok(4), Ok((None, None)), Some(Ok(3)), vec![], vec![], vec![]);
    assert_eq!(some.failed_commands, 3);
}

#[test]
fn stats_dates_hours_and_failures() {
    let mut db = Database::open(&PathBuf::from(":memory:")).unwrap();
    logged(&mut db, "a", jan_15_2026_10am());
    let mut c = sample_command(None);
    c.exit_code = 1;
    c.timestamp = Timestamp::from_unix(1768471200 + 3600, 0).unwrap();
    db.insert(&c).unwrap();
    let stats = db.stats(10).unwrap();
    assert_eq!(stats.total_commands, 2);
    assert_eq!(stats.failed_commands, 1);
    assert_eq!(stats.date_range, ("2026-01-15".to_string(), "2026-01-15".to_string()));
    assert_eq!(stats.most_active_hours, vec![(10, 1), (11, 1)]);
    assert_eq!(stats.top_directories, vec![("/home".to_string(), 1)]);
}

#[test]
fn config_with_override() {
    let mut config = Config::load(Some(PathBuf::from("/nonexistent/recall-data"))).unwrap();
    assert_eq!(config.data_dir, PathBuf::from("/nonexistent/recall-data"));
    assert_eq!(config.db_path, PathBuf::from("/nonexistent/recall-data/history.db"));
    assert!(!config.is_initialized());
}

#[test]
fn config_from_home_or_override() {
    let home = PathBuf::from("/home/cliff");
    let c = Config::from_dirs(None, Some(home.clone())).unwrap();
    assert_eq!(c.data_dir, home.join(".recall"));
    assert_eq!(c.db_path, home.join(".recall").join("history.db"));
    let o = Config::from_dirs(Some(PathBuf::from("/data")), Some(home)).unwrap();
    assert_eq!(o.data_dir, PathBuf::from("/data"));
    assert!(matches!(Config::from_dirs(None, None), Err(RecallErrors::NoHomeDir)));
}

#[test]
fn hostname_falls_back_to_unknown() {
    assert_eq!(recall::commands::hostname_or_unknown(None), "unknown");
    assert_eq!(recall::commands::hostname_or_unknown(Some("box".to_string())), "box");
}

#[test]
fn data_paths_join_under_home_or_override() {
    let (d, b) = recall::config::data_paths(None, Some(PathBuf::from("/h"))).unwrap();
    assert_eq!(d.into_path(), PathBuf::from("/h/.recall"));
    assert_eq!(b.into_path(), PathBuf::from("/h/.recall/history.db"));
    let (d, b) = recall::config::data_paths(Some(PathBuf::from("/o")), None).unwrap();
    assert_eq!(d.into_path(), PathBuf::from("/o"));
    assert_eq!(b.into_path(), PathBuf::from("/o/history.db"));
    assert!(recall::config::data_paths(None, None).is_err());
}

#[test]
fn last_command_of_the_lookup() {
    assert!(recall::db::last_command_of(&Ok(vec![])).is_none());
    assert!(recall::db::last_command_of(&Err(rusqlite::Error::QueryReturnedNoRows)).is_none());
    let row = CommandRow {
        id: 9,
        command: "ls".to_string(),
        timestamp: "2026-01-15T10:00:00+00:00".to_string(),
        session_id: None,
        cwd: None,
        exit_code: 0,
        shell: None,
        hostname: None,
        metadata: None,
    };
    let c = recall::db::last_command_of(&Ok(vec![row])).unwrap();
    assert_eq!((c.id, c.command.as_str()), (9, "ls"));
}

#[test]
fn is_initialized_looks_for_the_directory_then_the_database() {
    let dir = PathBuf::from("/");
    let mut c = Config::from_dirs(Some(dir.clone()), None).unwrap();
    assert_eq!(c.db_path, dir.join("history.db"));
    // the directory exists; the database file may or may not
    assert_eq!(c.is_initialized(), dir.join("history.db").exists());
    let mut missing = Config::from_dirs(Some(PathBuf::from("/nonexistent/recall-data")), None).unwrap();
    assert!(!missing.is_initialized());
}

#[test]
fn initialized_needs_both_paths() {
    assert!(initialized(true, true));
    assert!(!initialized(true, false));
    assert!(!initialized(false, true));
    assert!(!initialized(false, false));
}

#[test]
fn config_path_under_a_given_home() {
    let home = PathBuf::from("/home/cliff");
    assert_eq!(config_path_under(Some(home.clone()), &Shell::Zsh, false).unwrap().into_path(), home.join(".zshrc"));
    assert_eq!(
        config_path_under(Some(home.clone()), &Shell::Fish, false).unwrap().into_path(),
        home.join(".config").join("fish").join("conf.d").join("recall.fish")
    );
    assert_eq!(
        config_path_under(Some(home.clone()), &Shell::PowerShell, true).unwrap().into_path(),
        home.join("Documents").join("PowerShell").join("Microsoft.PowerShell_profile.ps1")
    );
    assert!(matches!(config_path_under(None, &Shell::Bash, false), Err(RecallErrors::NoHomeDir)));
}

#[test]
fn home_text_forms() {
    assert_eq!(home_text_from(None), None);
    assert_eq!(home_text_from(Some(Some("/home/cliff".to_string()))), Some("/home/cliff".to_string()));
    assert_eq!(home_text_from(Some(None)), Some(String::new()));
}

#[test]
fn clock_readings_before_the_epoch_or_out_of_range_read_as_the_epoch() {
    let t = Timestamp::from_clock_reading(Some((1768471200, 5)));
    assert_eq!((t.secs(), t.nanos()), (1768471200, 5));
    let e = Timestamp::from_clock_reading(None);
    assert_eq!((e.secs(), e.nanos()), (0, 0));
    let big = Timestamp::from_clock_reading(Some((u64::MAX, 0)));
    assert_eq!((big.secs(), big.nanos()), (0, 0));
    let far = Timestamp::from_clock_reading(Some((i64::MAX as u64, 0)));
    assert_eq!((far.secs(), far.nanos()), (0, 0));
    let now = Timestamp::now();
    assert!(now.secs() > 1_700_000_000);
}

#[test]
fn clean_without_arguments_leaves_the_rows() {
    let mut db = Database::open(&PathBuf::from(":memory:")).unwrap();
    logged(&mut db, "kept", jan_15_2026_10am());
    assert_eq!(db.clean(None, None, false, false).unwrap(), 0);
    assert_eq!(db.clean(None, None, false, true).unwrap(), 0);
    assert_eq!(db.export().unwrap().len(), 1);
}

#[test]
fn open_fails_with_database_error_for_unreachable_path() {
    let r = Database::open(&PathBuf::from("/nonexistent-recall-dir/sub/history.db"));
    assert!(matches!(r, Err(RecallErrors::Database(_))));
}

#[test]
fn undo_returns_last_and_deletes_it() {
    let mut db = Database::open(&PathBuf::from(":memory:")).unwrap();
    let first = logged(&mut db, "first", jan_15_2026_10am());
    let second = logged(&mut db, "second", jan_15_2026_10am());
    assert_eq!(second, first + 1);
    let undone = db.undo().unwrap().unwrap();
    assert_eq!((undone.id, undone.command.as_str()), (second, "second"));
    assert_eq!(db.history(10, None, None, false).unwrap().len(), 1);
}

#[test]
fn log_entry_keeps_fields() {
    let c = recall::commands::log_entry(
        "make".to_string(),
        Some("9".to_string()),
        Some("/src".to_string()),
        2,
        Some("zsh".to_string()),
        None,
    );
    assert_eq!(c.id, 0);
    assert_eq!(c.command, "make");
    assert_eq!(c.session_id.as_deref(), Some("9"));
    assert_eq!(c.cwd.as_deref(), Some("/src"));
    assert_eq!(c.exit_code, 2);
    assert_eq!(c.shell.as_deref(), Some("zsh"));
    assert!(c.metadata.is_none());
    assert!(c.hostname.is_some());
}
