use diff_by_time::differ::Differ;
use diff_by_time::i18n::I18n;
use diff_by_time::storage::{CommandExecution, CommandRecord, Timestamp};

fn strip(s: &str) -> String {
    let mut out = String::new();
    let mut chars = s.chars().peekable();
    while let Some(c) = chars.next() {
        if c == '\x1b' {
            for d in chars.by_ref() {
                if d == 'm' {
                    break;
                }
            }
        } else {
            out.push(c);
        }
    }
    out
}

fn run(id: &str, secs: i64, out: &str, err: &str, code: Option<&str>, exit: i32) -> CommandExecution {
    CommandExecution {
        record: CommandRecord {
            command: "ls".to_string(),
            command_hash: "h".to_string(),
            timestamp: Timestamp { secs, nanos: 0 },
            working_dir: "/w".to_string(),
            exit_code: exit,
            duration_ms: 5,
            record_id: id.to_string(),
            short_code: code.map(|c| c.to_string()),
        },
        stdout: out.to_string(),
        stderr: err.to_string(),
        stdout_path: None,
        stderr_path: None,
        streamed_stdout: false,
        streamed_stderr: false,
    }
}

#[test]
fn navigation_hint_by_width() {
    let en = I18n::new("en");
    assert_eq!(Differ::get_nav_hint_by_width(80, &en), en.t("status_nav_narrow"));
    assert_eq!(Differ::get_nav_hint_by_width(90, &en), en.t("status_nav_medium"));
    assert_eq!(Differ::get_nav_hint_by_width(165, &en), en.t("status_nav_compact"));
}

#[test]
fn preview_sanitizing() {
    assert_eq!(Differ::sanitize_for_preview("a\rb"), "a\nb");
    assert_eq!(Differ::sanitize_for_preview("\x1b[31mred\x1b[0m"), "red");
    assert_eq!(Differ::sanitize_for_preview("a\tb\x07c\n"), "a    bc\n");
}

#[test]
fn wrapping_by_display_width() {
    assert_eq!(Differ::char_display_width('a'), 1);
    assert_eq!(Differ::char_display_width('中'), 2);
    assert_eq!(Differ::char_display_width('\x01'), 1);
    assert_eq!(Differ::wrap_line_to_width("abcdef", 4), vec!["abcd", "ef"]);
    assert_eq!(Differ::wrap_line_to_width("abcd", 4), vec!["abcd"]);
    assert_eq!(Differ::wrap_line_to_width("", 4), vec![""]);
    assert_eq!(Differ::wrap_line_to_width("abc", 0), vec![""]);
    assert_eq!(Differ::wrap_line_to_width("a中b", 2), vec!["a", "中", "b"]);
    assert_eq!(Differ::wrap_line_to_width("中", 1), vec!["中"]);
}

#[test]
fn counting_wrapped_rows() {
    assert_eq!(Differ::count_wrapped_lines("abcdef\nxy", 4), 3);
    assert_eq!(Differ::count_wrapped_lines("a\n", 4), 2);
    assert_eq!(Differ::count_wrapped_lines("a\nb\n", 0), 2);
    assert_eq!(Differ::count_wrapped_lines("", 0), 0);
    assert_eq!(Differ::count_wrapped_lines("", 3), 1);
}

#[test]
fn plain_previews_of_differences() {
    assert_eq!(Differ::diff_preview_text("a\nb\n", "a\nc\n"), "  a\n- b\n+ c\n");
    assert_eq!(Differ::diff_preview_text_linewise("a\nb", "a\nc\nd"), "  a\n- b\n+ c\n+ d\n");
}

#[test]
fn colored_differences_read_as_plain_text() {
    assert_eq!(strip(&Differ::diff_text("a\nb\n", "a\nc\n")), " a\n-b\n+c\n");
    assert_eq!(strip(&Differ::diff_text("x", "y")), "-x\n+y\n");
    assert_eq!(strip(&Differ::diff_text_linewise("a\nb", "a")), " a\n-b\n");
}

#[test]
fn report_of_two_runs() {
    let en = I18n::new("en");
    let e = run("1", 1, "same\n", "", Some("a"), 0);
    let l = run("2", 2, "same\n", "", None, 1);
    let r = strip(&Differ::diff_report(&e, &l, &en, false, "T1", "T2"));
    assert_eq!(
        r,
        "Command: ls\n- Earlier: T1 [code: a]\n+ Later  : T2\nexit code: 0 -> 1\nexecution time: 5ms -> 5ms\n\noutput is identical\n"
    );
    let l2 = run("3", 3, "other\n", "", None, 0);
    let r2 = strip(&Differ::diff_report(&e, &l2, &en, true, "T1", "T3"));
    assert!(r2.contains("stdout diff:\n-same\n+other\n \n\n"));
    assert!(!r2.contains("output is identical"));
}

#[test]
fn diff_needs_two_runs() {
    let en = I18n::new("en");
    assert!(Differ::diff_executions(&vec![run("1", 1, "", "", None, 0)], &en, false).is_none());
    let two = vec![run("1", 1, "a", "", None, 0), run("2", 2, "b", "", None, 0)];
    assert!(Differ::diff_executions(&two, &en, false).is_some());
}

#[test]
fn wrapping_keeps_every_character_in_order() {
    for (line, width) in [("abcdefghij", 3), ("a中b中中c", 2), ("中", 1), ("", 5), ("xy", 1)] {
        let rows = Differ::wrap_line_to_width(line, width);
        assert_eq!(rows.concat(), line);
        for r in &rows {
            let w: usize = r.chars().map(Differ::char_display_width).sum();
            assert!(w <= width || r.chars().count() == 1, "{:?} in {:?}", r, rows);
        }
    }
}
