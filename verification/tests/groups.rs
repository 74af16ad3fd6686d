use diff_by_time::differ::Differ;
use diff_by_time::groups::{rank_positions, CommandGroup};
use diff_by_time::storage::{CommandExecution, CommandRecord, Timestamp};

fn rec(cmd: &str, hash: &str, secs: i64) -> CommandRecord {
    CommandRecord {
        command: cmd.to_string(),
        command_hash: hash.to_string(),
        timestamp: Timestamp { secs, nanos: 0 },
        working_dir: "/w".to_string(),
        exit_code: 0,
        duration_ms: 1,
        record_id: format!("{}_{}", hash, secs),
        short_code: None,
    }
}

fn exec(cmd: &str, secs: i64, code: Option<&str>) -> CommandExecution {
    let mut r = rec(cmd, "h", secs);
    r.short_code = code.map(|c| c.to_string());
    CommandExecution {
        record: r,
        stdout: String::new(),
        stderr: String::new(),
        stdout_path: None,
        stderr_path: None,
        streamed_stdout: false,
        streamed_stderr: false,
    }
}

fn summary(g: &CommandGroup) -> (String, String, usize, i64) {
    (g.command_hash.clone(), g.command.clone(), g.count, g.latest.secs)
}

#[test]
fn runs_grouped_by_command_newest_first() {
    let records = vec![rec("ls", "h1", 10), rec("pwd", "h2", 20), rec("ls -a", "h1", 30), rec("ls -b", "h1", 30)];
    let groups = Differ::build_command_groups(&records);
    let got: Vec<_> = groups.iter().map(summary).collect();
    assert_eq!(
        got,
        vec![
            ("h1".to_string(), "ls -a".to_string(), 3, 30),
            ("h2".to_string(), "pwd".to_string(), 1, 20),
        ]
    );
    assert!(Differ::build_command_groups(&Vec::new()).is_empty());
}

#[test]
fn run_filter_positions() {
    let execs = vec![exec("ls", 1, Some("a")), exec("pwd", 2, None), exec("ls", 3, Some("q3"))];
    let dates = vec!["x".to_string(), "y".to_string(), "z".to_string()];
    assert_eq!(Differ::compute_filtered_indices(&execs, &dates, ""), vec![0, 1, 2]);
    assert_eq!(Differ::compute_filtered_indices(&execs, &dates, "pwd"), vec![1]);
    assert_eq!(Differ::compute_filtered_indices(&execs, &dates, "q3"), vec![2]);
    assert!(Differ::compute_filtered_indices(&execs, &dates, "nothing").is_empty());
    let mut both = Differ::compute_filtered_indices(&execs, &dates, "ls");
    both.sort();
    assert_eq!(both, vec![0, 2]);
}

#[test]
fn group_filter_positions() {
    let groups = Differ::build_command_groups(&vec![rec("make test", "h1", 10), rec("cargo build", "h2", 20)]);
    let dates = vec!["d1".to_string(), "d2".to_string()];
    assert_eq!(Differ::filter_group_indices(&groups, &dates, ""), vec![0, 1]);
    assert_eq!(Differ::filter_group_indices(&groups, &dates, "cargo"), vec![0]);
    assert_eq!(Differ::filter_group_indices(&groups, &dates, "make"), vec![1]);
}

#[test]
fn ranking_positions_of_texts() {
    let texts = vec!["apple".to_string(), "banana".to_string(), "application".to_string()];
    let r = rank_positions(texts.clone(), "app");
    assert_eq!(r.len(), 2);
    assert!(r.contains(&0) && r.contains(&2));
    assert_eq!(rank_positions(texts, ""), vec![0, 1, 2]);
}

#[test]
fn picking_a_group_by_number() {
    assert_eq!(Differ::pick_group(3, " 2 "), Some(1));
    assert_eq!(Differ::pick_group(3, "1"), Some(0));
    assert_eq!(Differ::pick_group(3, "3"), Some(2));
    assert_eq!(Differ::pick_group(3, "0"), None);
    assert_eq!(Differ::pick_group(3, "4"), None);
    assert_eq!(Differ::pick_group(3, "x"), None);
    assert_eq!(Differ::pick_group(0, "1"), None);
}

#[test]
fn one_local_time_per_run() {
    let execs = vec![exec("ls", 1700000000, None), exec("ls", 0, None)];
    let t = Differ::local_times(&execs);
    assert_eq!(t.len(), 2);
    assert!(t.iter().all(|s| s.len() == 19));
}

#[test]
fn search_texts_of_runs_and_groups() {
    let execs = vec![exec("ls -l", 1, Some("a")), exec("pwd", 2, None)];
    let dates = vec!["D1".to_string(), "D2".to_string()];
    assert_eq!(Differ::run_search_texts(&execs, &dates), vec!["1 D1 ls -l a", "2 D2 pwd"]);
    let groups = Differ::build_command_groups(&vec![rec("make", "h1", 10), rec("make", "h1", 11), rec("ls", "h2", 5)]);
    let gd = vec!["G1".to_string(), "G2".to_string()];
    assert_eq!(Differ::group_search_texts(&groups, &gd), vec!["make 2 G1 1", "ls 1 G2 2"]);
    let times = Differ::group_times(&groups);
    assert_eq!(times.len(), 2);
    assert!(times.iter().all(|t| t.len() == 19));
}

#[test]
fn local_time_is_within_a_day_of_utc() {
    let execs = vec![exec("ls", 1700000000, None)];
    let t = Differ::local_times(&execs);
    let day = &t[0][..10];
    assert!(["2023-11-13", "2023-11-14", "2023-11-15"].contains(&day));
    assert_eq!(&t[0][16..], ":20");
}
