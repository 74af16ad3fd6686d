use diff_by_time::differ::Differ;
use diff_by_time::groups::CommandGroup;
use diff_by_time::i18n::I18n;
use diff_by_time::storage::{CommandExecution, CommandRecord, Timestamp};

fn run(id: &str, secs: i64, out: &str, err: &str, code: Option<&str>) -> CommandExecution {
    CommandExecution {
        record: CommandRecord {
            command: "ls".to_string(),
            command_hash: "h".to_string(),
            timestamp: Timestamp { secs, nanos: 0 },
            working_dir: "/w".to_string(),
            exit_code: 0,
            duration_ms: 5,
            record_id: id.to_string(),
            short_code: code.map(|c| c.to_string()),
        },
        stdout: out.to_string(),
        stderr: err.to_string(),
        stdout_path: Some(format!("/d/{}.out", id)),
        stderr_path: None,
        streamed_stdout: false,
        streamed_stderr: false,
    }
}

#[test]
fn list_lines() {
    let en = I18n::new("en");
    let with = run("r1", 1, "", "", Some("ab"));
    let without = run("r2", 2, "", "", None);
    assert_eq!(Differ::run_line(0, &with, "2024-01-01 10:00:00", &en), "1: code:ab time: 2024-01-01 10:00:00");
    assert_eq!(Differ::run_line(9, &without, "D", &en), "10: time: D");
    assert_eq!(Differ::list_line(1, &with, true, "D", &en), "✓ 2: code:ab time: D");
    assert_eq!(Differ::list_line(1, &without, false, "D", &en), "  2: time: D");
}

#[test]
fn group_lines() {
    let en = I18n::new("en");
    let g = CommandGroup {
        command_hash: "h".to_string(),
        command: "make test".to_string(),
        count: 4,
        latest: Timestamp { secs: 0, nanos: 0 },
    };
    assert_eq!(Differ::group_line(3, &g, "D", &en), "3: make test (count: 4, latest: D)");
}

#[test]
fn footer_messages() {
    let en = I18n::new("en");
    assert_eq!(Differ::footer_status(0, &en), "Select first");
    assert_eq!(Differ::footer_status(1, &en), en.t("status_select_second"));
    assert_eq!(Differ::footer_status(2, &en), en.t("selection_complete"));
}

#[test]
fn preview_scroll_limits() {
    assert_eq!(Differ::clamp_preview(100, 20, 10), 10);
    assert_eq!(Differ::clamp_preview(100, 20, 90), 80);
    assert_eq!(Differ::clamp_preview(5, 20, 3), 0);
    assert_eq!(Differ::clamp_preview(20, 20, 0), 0);
}

#[test]
fn pair_to_preview() {
    let e = vec![run("r1", 30, "", "", None), run("r2", 10, "", "", None), run("r3", 20, "", "", None)];
    let two = vec!["r1".to_string(), "r3".to_string()];
    assert_eq!(Differ::preview_pair(&two, &e), Some((2, 0)));
    let ordered = vec!["r2".to_string(), "r3".to_string()];
    assert_eq!(Differ::preview_pair(&ordered, &e), Some((1, 2)));
    assert_eq!(Differ::preview_pair(&vec!["r1".to_string()], &e), None);
    assert_eq!(Differ::preview_pair(&vec!["r1".to_string(), "zz".to_string()], &e), None);
}

#[test]
fn preview_panels() {
    let en = I18n::new("en");
    let e = vec![
        run("r1", 1, "a\nb\n", "", None),
        run("r2", 2, "a\nc\n", "warn\n", None),
        run("r3", 3, "a\nb\n", "", None),
    ];
    let (t, b) = Differ::preview_panel(&e, None, None, false, false, &en);
    assert_eq!((t.as_str(), b.as_str()), ("Preview: stdout", "Select a record to preview output"));
    let (t, b) = Differ::preview_panel(&e, None, Some(0), false, false, &en);
    assert_eq!(t, "Preview: stdout");
    assert_eq!(b, "Standard output: Path: /d/r1.out\na\nb\n");
    let (t, b) = Differ::preview_panel(&e, None, Some(1), false, false, &en);
    assert_eq!(t, "Preview: stdout  |  Preview: stderr");
    assert_eq!(b, "Standard output: Path: /d/r2.out\na\nc\n\n\nError output: Path: unavailable\nwarn\n");
    let (t, b) = Differ::preview_panel(&e, Some((0, 2)), Some(1), false, false, &en);
    assert_eq!(t, "Diff preview: stdout");
    assert_eq!(b, format!("{}\n", en.t("output_identical")));
    let (t, b) = Differ::preview_panel(&e, Some((0, 1)), None, true, false, &en);
    assert_eq!(t, "Diff preview: stdout  |  Diff preview: stderr");
    assert_eq!(b, "  a\n- b\n+ c\n  \n\n── stderr ─────────────────────────\n- \n+ warn\n+ \n");
}

#[test]
fn standard_error_panels() {
    let en = I18n::new("en");
    let e = vec![run("r1", 1, "a\n", "", None), run("r2", 2, "a\n", "warn\n", None)];
    let (t, b) = Differ::preview_panel(&e, None, Some(1), false, true, &en);
    assert_eq!(t, "Preview: stderr");
    assert_eq!(b, "Error output: Path: unavailable\nwarn\n");
    let (_, b) = Differ::preview_panel(&e, None, Some(0), false, true, &en);
    assert_eq!(b, "Error output: Path: unavailable\nOutput is empty");
    let (t, b) = Differ::preview_panel(&e, Some((0, 1)), None, true, true, &en);
    assert_eq!(t, "Diff preview: stderr");
    assert_eq!(b, "- \n+ warn\n+ \n");
    let (t, b) = Differ::preview_panel(&e, Some((0, 0)), None, false, true, &en);
    assert_eq!(t, "Diff preview: stderr");
    assert_eq!(b, en.t("output_identical"));
    let (t, b) = Differ::preview_panel(&e, None, None, false, true, &en);
    assert_eq!((t.as_str(), b.as_str()), ("Preview: stderr", "Select a record to preview output"));
}
