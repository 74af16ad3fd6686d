use diff_by_time::differ::Differ;
use diff_by_time::i18n::I18n;
use diff_by_time::selection::SelectNote;
use diff_by_time::storage::{CommandExecution, CommandRecord, Timestamp};

// 2023-11-14 22:13:20 UTC, 2024-01-01 00:00:00 UTC, 2024-02-01 00:00:00 UTC
const T_A: i64 = 1700000000;
const T_B: i64 = 1704067200;
const T_C: i64 = 1706745600;

fn run(id: &str, secs: i64, code: Option<&str>) -> CommandExecution {
    CommandExecution {
        record: CommandRecord {
            command: "ls".to_string(),
            command_hash: "h".to_string(),
            timestamp: Timestamp { secs, nanos: 0 },
            working_dir: "/w".to_string(),
            exit_code: 0,
            duration_ms: 5,
            record_id: id.to_string(),
            short_code: code.map(|c| c.to_string()),
        },
        stdout: String::new(),
        stderr: String::new(),
        stdout_path: None,
        stderr_path: None,
        streamed_stdout: false,
        streamed_stderr: false,
    }
}

fn three() -> Vec<CommandExecution> {
    vec![run("a", T_A, Some("a")), run("b", T_B, Some("b")), run("c", T_C, Some("c"))]
}

fn ids(v: &[CommandExecution]) -> Vec<String> {
    v.iter().map(|e| e.record.record_id.clone()).collect()
}

#[test]
fn month_names() {
    assert_eq!(Differ::get_month_en_name(1), "jan");
    assert_eq!(Differ::get_month_en_name(11), "nov");
    assert_eq!(Differ::get_month_en_name(12), "dec");
    assert_eq!(Differ::get_month_en_name(0), "unknown");
    assert_eq!(Differ::get_month_en_name(13), "unknown");
}

#[test]
fn date_filters_match_utc_dates() {
    let en = I18n::new("en");
    let t = Timestamp { secs: T_A, nanos: 0 };
    assert!(Differ::matches_date_filter(t, "2023", &en));
    assert!(!Differ::matches_date_filter(t, "2024", &en));
    assert!(Differ::matches_date_filter(t, "2023-11", &en));
    assert!(!Differ::matches_date_filter(t, "2023-12", &en));
    assert!(Differ::matches_date_filter(t, "11-14", &en));
    assert!(!Differ::matches_date_filter(t, "11-15", &en));
    assert!(Differ::matches_date_filter(t, "nov", &en));
    assert!(Differ::matches_date_filter(t, "NOV", &en));
    assert!(!Differ::matches_date_filter(t, "dec", &en));
    assert!(Differ::matches_date_filter(t, "22:13", &en));
    assert!(!Differ::matches_date_filter(t, "11/14", &en));
}

#[test]
fn date_filter_inputs() {
    let en = I18n::new("en");
    assert!(Differ::is_date_filter_input("2024-01", &en));
    assert!(Differ::is_date_filter_input("01-15", &en));
    assert!(Differ::is_date_filter_input("2024", &en));
    assert!(Differ::is_date_filter_input("1/5", &en));
    assert!(Differ::is_date_filter_input("in Jan", &en));
    assert!(!Differ::is_date_filter_input("22:13", &en));
    assert!(!Differ::is_date_filter_input("abc", &en));
    assert!(!Differ::is_date_filter_input("", &en));
}

#[test]
fn code_filter_inputs() {
    let e = three();
    assert_eq!(Differ::is_code_filter_input("a c", &e), Some(vec!["a".to_string(), "c".to_string()]));
    assert_eq!(Differ::is_code_filter_input("a,zz", &e), Some(vec!["a".to_string()]));
    assert_eq!(Differ::is_code_filter_input("zz", &e), None);
    assert_eq!(Differ::is_code_filter_input("a b c", &e), None);
    assert_eq!(Differ::is_code_filter_input("a-b", &e), None);
    assert_eq!(Differ::is_code_filter_input("", &e), None);
    assert_eq!(Differ::is_code_filter_input(" , ", &e), None);
}

#[test]
fn pairs_by_code() {
    let e = three();
    let two = Differ::filter_by_code(&e, &vec!["c".to_string(), "a".to_string()]);
    assert_eq!(ids(&two), vec!["a", "c"]);
    let one = Differ::filter_by_code(&e, &vec!["b".to_string()]);
    assert_eq!(ids(&one), vec!["b", "c"]);
    let newest = Differ::filter_by_code(&e, &vec!["c".to_string()]);
    assert_eq!(ids(&newest), vec!["b", "c"]);
    let none = Differ::filter_by_code(&e, &vec!["zz".to_string()]);
    assert_eq!(ids(&none), vec!["a", "b"]);
    let single = vec![run("a", T_A, Some("a"))];
    assert_eq!(ids(&Differ::filter_by_code(&single, &vec!["a".to_string()])), vec!["a"]);
}

#[test]
fn repeated_code_is_paired_with_newest_other_run() {
    let e = three();
    let same = Differ::filter_by_code(&e, &vec!["a".to_string(), "a".to_string()]);
    assert_eq!(ids(&same), vec!["a", "c"]);
    let newest_twice = Differ::filter_by_code(&e, &vec!["c".to_string(), "c".to_string()]);
    assert_eq!(ids(&newest_twice), vec!["b", "c"]);
}

#[test]
fn pairs_by_date() {
    let en = I18n::new("en");
    let e = three();
    let (r, fallback) = Differ::filter_by_date(&e, "2024", &en);
    assert_eq!(ids(&r), vec!["b", "c"]);
    assert!(!fallback);
    let (r, fallback) = Differ::filter_by_date(&e, "2023", &en);
    assert_eq!(ids(&r), vec!["a", "b"]);
    assert!(fallback);
    let more = vec![run("c", T_C, None), run("a", T_A, None), run("d", T_C + 10, None), run("b", T_B, None)];
    let (r, fallback) = Differ::filter_by_date(&more, "2024", &en);
    assert_eq!(ids(&r), vec!["c", "d"]);
    assert!(!fallback);
}

#[test]
fn choice_from_typed_input() {
    let en = I18n::new("en");
    let e = three();
    let (r, note) = Differ::choose_by_input(&e, " a c ", &en);
    assert_eq!((ids(&r), note), (vec!["a".to_string(), "c".to_string()], SelectNote::Nothing));
    let (r, note) = Differ::choose_by_input(&e, "b", &en);
    assert_eq!((ids(&r), note), (vec!["b".to_string(), "c".to_string()], SelectNote::Nothing));
    let (r, note) = Differ::choose_by_input(&e, "2024", &en);
    assert_eq!((ids(&r), note), (vec!["b".to_string(), "c".to_string()], SelectNote::UsingFiltered));
    let (r, note) = Differ::choose_by_input(&e, "2023", &en);
    assert_eq!((ids(&r), note), (vec!["a".to_string(), "b".to_string()], SelectNote::FewRecords));
    let (r, note) = Differ::choose_by_input(&e, "3 1", &en);
    assert_eq!((ids(&r), note), (vec!["a".to_string(), "c".to_string()], SelectNote::Nothing));
    let (r, note) = Differ::choose_by_input(&e, "1 9", &en);
    assert_eq!((ids(&r), note), (vec!["a".to_string(), "b".to_string()], SelectNote::InvalidInput));
    let (r, note) = Differ::choose_by_input(&e, "", &en);
    assert_eq!((ids(&r), note), (vec!["a".to_string(), "b".to_string()], SelectNote::InvalidInput));
}

#[test]
fn date_filters_follow_the_gregorian_calendar() {
    let en = I18n::new("en");
    let leap_day = Timestamp { secs: 951_782_400, nanos: 0 };
    assert!(Differ::matches_date_filter(leap_day, "2000-02", &en));
    assert!(Differ::matches_date_filter(leap_day, "02-29", &en));
    assert!(Differ::matches_date_filter(leap_day, "feb", &en));
    let before_epoch = Timestamp { secs: -1, nanos: 0 };
    assert!(Differ::matches_date_filter(before_epoch, "1969", &en));
    assert!(Differ::matches_date_filter(before_epoch, "12-31", &en));
    assert!(!Differ::matches_date_filter(before_epoch, "1970", &en));
}
