use diff_by_time::cli::{
    command_count, confirm_reply, find_by_code, find_diff_target, format_command, hash_command,
    help_page, join_args_for_shell, matching_records, needs_help, record_line, resolve_alt_screen,
    resolve_tui_simple, shell_quote, startup_action, HelpPage, Startup,
};
use diff_by_time::storage::{CommandExecution, CommandRecord, Timestamp};

fn args(v: &[&str]) -> Vec<String> {
    v.iter().map(|s| s.to_string()).collect()
}

fn rec(cmd: &str, hash: &str, id: &str, secs: i64, code: Option<&str>) -> CommandRecord {
    CommandRecord {
        command: cmd.to_string(),
        command_hash: hash.to_string(),
        timestamp: Timestamp { secs, nanos: 0 },
        working_dir: "/w".to_string(),
        exit_code: 0,
        duration_ms: 7,
        record_id: id.to_string(),
        short_code: code.map(|c| c.to_string()),
    }
}

fn exec(r: CommandRecord) -> CommandExecution {
    CommandExecution {
        record: r,
        stdout: String::new(),
        stderr: String::new(),
        stdout_path: None,
        stderr_path: None,
        streamed_stdout: false,
        streamed_stderr: false,
    }
}

#[test]
fn test_join_args_simple() {
    let args = vec!["ls".into(), "-al".into()];
    assert_eq!(join_args_for_shell(&args), "ls -al");
}

#[test]
fn test_join_args_with_spaces() {
    let args = vec!["echo".into(), "hello world".into()];
    assert_eq!(join_args_for_shell(&args), "echo 'hello world'");
}

#[test]
fn test_join_args_with_single_quote() {
    let args = vec!["printf".into(), "%s".into(), "it's ok".into()];
    let expected = ["printf", "%s", r"'it'\''s ok'"]
        .iter()
        .copied()
        .collect::<Vec<_>>()
        .join(" ");
    assert_eq!(join_args_for_shell(&args), expected);
}

#[test]
fn test_join_args_single_arg_passthrough() {
    let args = vec!["ls -l".into()];
    assert_eq!(join_args_for_shell(&args), "ls -l");
}

#[test]
fn test_join_args_empty_token() {
    let args = vec!["printf".into(), "".into()];
    assert_eq!(join_args_for_shell(&args), "printf ''");
}

#[test]
fn shell_quote_cases() {
    assert_eq!(shell_quote(""), "''");
    assert_eq!(shell_quote("a-b_c.d/e:f,g@h+i%j=k"), "a-b_c.d/e:f,g@h+i%j=k");
    assert_eq!(shell_quote("a b"), "'a b'");
    assert_eq!(shell_quote("'"), "''\\'''");
    assert_eq!(join_args_for_shell(&Vec::new()), "");
}

#[test]
fn lookup_form_keeps_quotes() {
    assert_eq!(format_command("  'ls   -l' "), "'ls -l'");
    assert_eq!(format_command("a |  b"), "a|b");
    assert_ne!(hash_command("'ls -l'"), diff_by_time::storage::hash_command("'ls -l'"));
    assert_eq!(hash_command("ls  -l"), diff_by_time::storage::hash_command("ls -l"));
}

#[test]
fn help_requests() {
    assert!(needs_help(&args(&["dt"])));
    assert!(needs_help(&args(&["dt", "run", "--help"])));
    assert!(needs_help(&args(&["dt", "help"])));
    assert!(needs_help(&args(&["dt", "clean", "-h"])));
    assert!(!needs_help(&args(&["dt", "run", "ls"])));
    assert_eq!(startup_action(&args(&["dt", "-V"])), Startup::Version);
    assert_eq!(startup_action(&args(&["dt", "run"])), Startup::Help);
    assert_eq!(startup_action(&args(&["dt", "clean"])), Startup::Help);
    assert_eq!(startup_action(&args(&["dt", "ls"])), Startup::Proceed);
}

#[test]
fn help_pages() {
    assert_eq!(help_page(&args(&["dt"])), HelpPage::Main);
    assert_eq!(help_page(&args(&["dt", "-h"])), HelpPage::Main);
    assert_eq!(help_page(&args(&["dt", "clean", "file", "-h"])), HelpPage::CleanFile);
    assert_eq!(help_page(&args(&["dt", "clean", "x"])), HelpPage::CleanModes);
    assert_eq!(help_page(&args(&["dt", "list", "-h"])), HelpPage::Ls);
    assert_eq!(help_page(&args(&["dt", "clean", "--help"])), HelpPage::CleanModes);
    assert_eq!(help_page(&args(&["dt", "clean"])), HelpPage::Clean);
    assert_eq!(help_page(&args(&["dt", "zzz"])), HelpPage::Unknown);
    assert_eq!(help_page(&Vec::new()), HelpPage::Nothing);
}

#[test]
fn confirmation_answers() {
    assert_eq!(confirm_reply(" YES \n", false), (true, false));
    assert_eq!(confirm_reply("All", false), (true, true));
    assert_eq!(confirm_reply("no", false), (false, false));
    assert_eq!(confirm_reply("no", true), (true, true));
}

#[test]
fn display_mode_overrides() {
    assert!(resolve_tui_simple(Some("FALSE"), "interactive"));
    assert!(!resolve_tui_simple(Some("interactive"), "simple"));
    assert!(resolve_tui_simple(None, "Simple"));
    assert!(!resolve_alt_screen(Some("0"), true));
    assert!(resolve_alt_screen(Some("yes"), false));
    assert!(resolve_alt_screen(None, true));
}

#[test]
fn listing_filters_by_substring_or_subsequence() {
    let rs = vec![rec("Git Status", "h1", "a", 1, None), rec("ls -l", "h2", "b", 2, Some("a"))];
    assert_eq!(matching_records(&rs, "  ").len(), 2);
    let m = matching_records(&rs, "GST");
    assert_eq!(m.len(), 1);
    assert_eq!(m[0].record_id, "a");
    assert_eq!(matching_records(&rs, "zz").len(), 0);
}

#[test]
fn listing_line_format() {
    let r = rec("ls", "h", "i", 1, Some("ab"));
    assert_eq!(record_line(&r, "T"), "T exit=0 dur=7ms [code:ab] ls");
    let r2 = rec("ls", "h", "i", 1, None);
    assert_eq!(record_line(&r2, "T"), "T exit=0 dur=7ms ls");
}

#[test]
fn distinct_commands_are_counted() {
    let rs = vec![rec("a", "h1", "1", 1, None), rec("b", "h2", "2", 2, None), rec("a", "h1", "3", 3, None)];
    assert_eq!(command_count(&rs), 2);
    assert_eq!(command_count(&Vec::new()), 0);
}

#[test]
fn diff_targets() {
    let es = vec![
        exec(rec("a", "h", "r1", 1, Some("a"))),
        exec(rec("a", "h", "r2", 2, Some("b"))),
        exec(rec("a", "h", "r3", 3, Some("c"))),
    ];
    assert_eq!(find_by_code(&es, "r3", "b"), Some(1));
    assert_eq!(find_by_code(&es, "r2", "b"), None);
    assert_eq!(find_diff_target(&es, "r3", "last"), Some(1));
    assert_eq!(find_diff_target(&es, "r1", "first"), Some(1));
    assert_eq!(find_diff_target(&es, "r3", "a"), Some(0));
}
