use diff_by_time::i18n::I18n;
use diff_by_time::picker::{CommandPicker, ListPicker, Pick};
use diff_by_time::storage::{CommandExecution, CommandRecord, Timestamp};
use diff_by_time::tui::{has_room_to_type, scorable, Key, KeyPress, SelectionState, Step};

fn run(id: &str, secs: i64, code: &str) -> CommandExecution {
    CommandExecution {
        record: CommandRecord {
            command: "ls".to_string(),
            command_hash: "h".to_string(),
            timestamp: Timestamp { secs, nanos: 0 },
            working_dir: "/w".to_string(),
            exit_code: 0,
            duration_ms: 5,
            record_id: id.to_string(),
            short_code: Some(code.to_string()),
        },
        stdout: String::new(),
        stderr: String::new(),
        stdout_path: None,
        stderr_path: None,
        streamed_stdout: false,
        streamed_stderr: false,
    }
}

fn runs() -> Vec<CommandExecution> {
    vec![run("r1", 1700000000, "a"), run("r2", 1704067200, "b"), run("r3", 1706745600, "c")]
}

fn key(k: Key) -> KeyPress {
    KeyPress { key: k, ctrl: false, alt: false, shift: false }
}

fn ctrl(c: char) -> KeyPress {
    KeyPress { key: Key::Char(c), ctrl: true, alt: false, shift: false }
}

#[test]
fn a_fresh_selection_shows_every_run() {
    let e = runs();
    let s = SelectionState::new(&e);
    assert_eq!(s.filtered(), &vec![0, 1, 2]);
    assert_eq!(s.current_selection(), 0);
    assert_eq!(s.filter_text(), "");
    assert!(s.selected_ids().is_empty());
    assert_eq!(s.target(), Some(0));
    assert_eq!(s.dates().len(), 3);
    assert!(!s.preview_focused() && !s.show_help());
    assert_eq!(s.last_action(), None);
}

#[test]
fn choosing_two_runs_and_comparing() {
    let en = I18n::new("en");
    let e = runs();
    let mut s = SelectionState::new(&e);
    assert_eq!(s.on_key(key(Key::Char(' ')), &e, Some(30), false, &en), Step::Redraw);
    assert_eq!(s.selected_ids(), &vec!["r1".to_string()]);
    assert!(s.preview_focused());
    assert_eq!(s.on_key(key(Key::Down), &e, Some(30), false, &en), Step::Redraw);
    assert!(!s.preview_focused());
    assert_eq!(s.current_selection(), 1);
    assert_eq!(s.on_key(key(Key::Char(' ')), &e, Some(30), false, &en), Step::Redraw);
    assert_eq!(s.selected_ids(), &vec!["r1".to_string(), "r2".to_string()]);
    assert_eq!(s.last_action(), Some("Selected two records. Press Enter again to compare."));
    assert_eq!(s.on_key(key(Key::Enter), &e, Some(30), false, &en), Step::Finish);
    let pair = s.outcome(&e);
    let ids: Vec<_> = pair.iter().map(|x| x.record.record_id.clone()).collect();
    assert_eq!(ids, vec!["r1", "r2"]);
}

#[test]
fn a_third_choice_is_refused_and_a_second_press_deselects() {
    let en = I18n::new("en");
    let e = runs();
    let mut s = SelectionState::new(&e);
    s.on_key(key(Key::Char(' ')), &e, None, false, &en);
    s.on_key(key(Key::Char('q')), &e, None, false, &en);
    s.on_key(key(Key::Char('j')), &e, None, false, &en);
    s.on_key(key(Key::Char(' ')), &e, None, false, &en);
    s.on_key(key(Key::Char('q')), &e, None, false, &en);
    s.on_key(key(Key::Char('j')), &e, None, false, &en);
    assert_eq!(s.current_selection(), 2);
    s.on_key(key(Key::Tab), &e, None, false, &en);
    assert!(s.preview_focused());
    s.on_key(key(Key::Char('q')), &e, None, false, &en);
    s.on_key(key(Key::BackTab), &e, None, false, &en);
    assert_eq!(s.selected_ids().len(), 2);
    assert_eq!(
        s.last_action(),
        Some("Only two records can be compared at once. Deselect one to pick another.")
    );
    s.on_key(key(Key::Char('q')), &e, None, false, &en);
    s.on_key(key(Key::Up), &e, None, false, &en);
    s.on_key(key(Key::Char(' ')), &e, None, false, &en);
    assert_eq!(s.selected_ids(), &vec!["r1".to_string()]);
}

#[test]
fn typing_filters_the_runs() {
    let en = I18n::new("en");
    let e = runs();
    let mut s = SelectionState::new(&e);
    assert_eq!(s.on_key(key(Key::Char('c')), &e, None, false, &en), Step::Redraw);
    assert_eq!(s.filter_text(), "c");
    assert_eq!(s.filtered(), &vec![2]);
    assert_eq!(s.target(), Some(2));
    assert_eq!(s.on_key(key(Key::Backspace), &e, None, false, &en), Step::Redraw);
    assert_eq!(s.filter_text(), "");
    assert_eq!(s.filtered(), &vec![0, 1, 2]);
    assert_eq!(s.on_key(key(Key::Backspace), &e, None, false, &en), Step::Stay);
    s.on_key(key(Key::Char('l')), &e, None, false, &en);
    s.on_key(key(Key::Char('s')), &e, None, false, &en);
    assert_eq!(s.on_key(key(Key::Delete), &e, None, false, &en), Step::Redraw);
    assert_eq!(s.filter_text(), "");
    s.on_key(key(Key::Char('x')), &e, None, false, &en);
    assert!(s.filtered().is_empty());
    assert_eq!(s.target(), None);
    assert_eq!(s.on_key(ctrl('u'), &e, None, false, &en), Step::Reload);
    assert_eq!(s.filter_text(), "");
    s.reloaded(&e);
    assert_eq!(s.filtered(), &vec![0, 1, 2]);
}

#[test]
fn ctrl_w_drops_the_last_word() {
    let en = I18n::new("en");
    let e = runs();
    let mut s = SelectionState::new(&e);
    for c in "ls".chars() {
        s.on_key(key(Key::Char(c)), &e, None, false, &en);
    }
    assert_eq!(s.filter_text(), "ls");
    assert_eq!(s.on_key(ctrl('w'), &e, None, false, &en), Step::Reload);
    assert_eq!(s.filter_text(), "");
    assert_eq!(s.on_key(key(Key::Char(' ')), &e, None, false, &en), Step::Redraw);
    assert_eq!(s.filter_text(), "");
}

#[test]
fn leaving_without_a_choice() {
    let en = I18n::new("en");
    let e = runs();
    let mut s = SelectionState::new(&e);
    s.on_key(key(Key::Char(' ')), &e, None, false, &en);
    assert_eq!(s.on_key(key(Key::Esc), &e, None, false, &en), Step::Redraw);
    assert!(!s.preview_focused());
    assert_eq!(s.on_key(key(Key::Esc), &e, None, false, &en), Step::Finish);
    assert!(s.selected_ids().is_empty());
    assert!(s.outcome(&e).is_empty());
    let mut t = SelectionState::new(&e);
    assert_eq!(t.on_key(ctrl('c'), &e, None, false, &en), Step::Finish);
}

#[test]
fn preview_scrolling() {
    let en = I18n::new("en");
    let e = runs();
    let mut s = SelectionState::new(&e);
    s.on_key(key(Key::Tab), &e, Some(24), false, &en);
    assert!(s.preview_focused());
    s.on_key(key(Key::PageDown), &e, Some(24), false, &en);
    assert_eq!(s.preview_offset(), 20);
    s.on_key(key(Key::Char('u')), &e, Some(24), false, &en);
    assert_eq!(s.preview_offset(), 8);
    s.on_key(key(Key::Char('G')), &e, Some(24), false, &en);
    assert_eq!(s.preview_offset(), 65535);
    s.on_key(key(Key::Char('g')), &e, Some(24), false, &en);
    assert_eq!(s.preview_offset(), 0);
    s.on_key(key(Key::Char('?')), &e, Some(24), false, &en);
    assert!(s.show_help());
    s.on_key(key(Key::Esc), &e, Some(24), false, &en);
    assert!(!s.show_help() && s.preview_focused());
    s.set_preview_offset(7);
    assert_eq!(s.preview_offset(), 7);
}

#[test]
fn deleting_asks_twice_then_reloads() {
    let en = I18n::new("en");
    let e = runs();
    let mut s = SelectionState::new(&e);
    s.on_key(key(Key::Char(' ')), &e, None, true, &en);
    s.on_key(key(Key::Char('q')), &e, None, true, &en);
    assert_eq!(s.on_key(ctrl('x'), &e, None, false, &en), Step::Stay);
    assert_eq!(s.on_key(ctrl('x'), &e, None, true, &en), Step::Redraw);
    let when = s.dates()[0].clone();
    assert_eq!(
        s.last_action(),
        Some(format!("Press Shift+Backspace or Ctrl+X again to delete run from {}.", when).as_str())
    );
    let shift_bs = KeyPress { key: Key::Backspace, ctrl: false, alt: false, shift: true };
    assert_eq!(s.on_key(shift_bs, &e, None, true, &en), Step::Delete);
    assert_eq!(s.target(), Some(0));
    assert_eq!(s.delete_done(&e, Some("disk full"), &en), Step::Redraw);
    assert_eq!(s.last_action(), Some("Failed to delete run: disk full"));
    assert_eq!(s.on_key(ctrl('x'), &e, None, true, &en), Step::Delete);
    assert_eq!(s.delete_done(&e, None, &en), Step::Reload);
    assert_eq!(s.last_action(), Some(format!("Deleted run from {}.", when).as_str()));
    assert!(s.selected_ids().is_empty());
    let rest = vec![run("r2", 1704067200, "b"), run("r3", 1706745600, "c")];
    s.reloaded(&rest);
    assert_eq!(s.filtered(), &vec![0, 1]);
    assert_eq!(s.current_selection(), 0);
}

#[test]
fn moving_the_cursor_pauses_a_pending_delete() {
    let en = I18n::new("en");
    let e = runs();
    let mut s = SelectionState::new(&e);
    s.on_key(ctrl('x'), &e, None, true, &en);
    assert!(s.last_action().is_some());
    s.on_key(key(Key::Down), &e, None, true, &en);
    assert_eq!(s.last_action(), None);
    assert_eq!(s.on_key(ctrl('x'), &e, None, true, &en), Step::Redraw);
}

#[test]
fn list_picker_keys() {
    let mut p = ListPicker::new(vec!["src/a.rs".to_string(), "src/b.rs".to_string(), "README.md".to_string()]);
    assert_eq!(p.filtered(), &vec![0, 1, 2]);
    assert_eq!(p.on_key(key(Key::Down)), Pick::Redraw);
    assert_eq!(p.current_selection(), 1);
    assert_eq!(p.on_key(key(Key::Enter)), Pick::Chosen(1));
    assert_eq!(p.on_key(key(Key::Char('R'))), Pick::Redraw);
    assert_eq!(p.filter_text(), "R");
    assert_eq!(p.filter_len(), 1);
    assert_eq!(p.filtered(), &vec![2]);
    assert_eq!(p.on_key(key(Key::Enter)), Pick::Chosen(2));
    assert_eq!(p.on_key(key(Key::Backspace)), Pick::Redraw);
    assert_eq!(p.filtered().len(), 3);
    assert_eq!(p.on_key(key(Key::Esc)), Pick::Cancel);
    assert_eq!(p.on_key(ctrl('c')), Pick::Cancel);
}

#[test]
fn command_picker_keys() {
    let mut p = CommandPicker::new(vec!["make test 1 d1 1".to_string(), "cargo build 1 d2 2".to_string()]);
    p.refresh(24);
    assert_eq!(p.filtered(), &vec![0, 1]);
    assert_eq!(p.on_key(key(Key::Char('J'))), Pick::Redraw);
    assert_eq!(p.current_selection(), 1);
    assert_eq!(p.on_key(key(Key::Enter)), Pick::Chosen(1));
    assert_eq!(p.on_key(key(Key::Char('1'))), Pick::Redraw);
    p.refresh(24);
    assert_eq!(p.on_key(key(Key::Enter)), Pick::Chosen(0));
    assert_eq!(p.on_key(key(Key::Delete)), Pick::Redraw);
    assert_eq!(p.filter_text(), "");
    assert_eq!(p.scroll_offset(), 0);
    assert_eq!(p.on_key(ctrl('d')), Pick::Cancel);
    assert_eq!(p.on_key(key(Key::Esc)), Pick::Cancel);
}

#[test]
fn command_picker_scrolls_with_the_cursor() {
    let texts: Vec<String> = (1..=20).map(|i| format!("cmd{} {}", i, i)).collect();
    let mut p = CommandPicker::new(texts);
    p.refresh(11);
    for _ in 0..7 {
        p.on_key(key(Key::Down));
    }
    p.refresh(11);
    assert_eq!(p.current_selection(), 7);
    assert_eq!(p.scroll_offset(), 3);
}

#[test]
fn choosing_a_run_twice_undoes_the_choice() {
    let en = I18n::new("en");
    let e = runs();
    let mut s = SelectionState::new(&e);
    s.on_key(key(Key::Down), &e, None, false, &en);
    s.on_key(key(Key::Char(' ')), &e, None, false, &en);
    assert_eq!(s.selected_ids(), &vec!["r2".to_string()]);
    s.on_key(key(Key::Char('q')), &e, None, false, &en);
    s.on_key(key(Key::Char(' ')), &e, None, false, &en);
    assert!(s.selected_ids().is_empty());
}

#[test]
fn switching_the_preview_between_outputs() {
    let en = I18n::new("en");
    let e = runs();
    let mut s = SelectionState::new(&e);
    assert!(!s.stderr_shown());
    assert_eq!(s.on_key(key(Key::Right), &e, None, false, &en), Step::Redraw);
    assert!(s.stderr_shown());
    s.on_key(key(Key::Char('o')), &e, None, false, &en);
    assert_eq!(s.filter_text(), "o");
    assert!(s.stderr_shown());
    s.on_key(key(Key::Backspace), &e, None, false, &en);
    s.on_key(key(Key::Tab), &e, None, false, &en);
    s.set_preview_offset(5);
    assert_eq!(s.on_key(key(Key::Char('o')), &e, None, false, &en), Step::Redraw);
    assert!(!s.stderr_shown());
    assert_eq!(s.preview_offset(), 0);
    s.on_key(key(Key::Left), &e, None, false, &en);
    assert!(s.stderr_shown() && s.preview_focused());
}

#[test]
fn filters_are_bounded_only_by_the_score_range() {
    assert!(scorable(""));
    assert!(has_room_to_type("a filter of any length that fits in memory"));
    let long = "x".repeat(120_000_000);
    assert!(scorable(&long));
    assert!(has_room_to_type(&long));
}
