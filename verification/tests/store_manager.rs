use diff_by_time::config::Config;
use diff_by_time::path::sort_paths;
use diff_by_time::storage::{CommandExecution, CommandRecord, Timestamp};
use diff_by_time::store_manager::{
    base_dir_for, group_by_year, merge_archive, records_valid, sort_executions, sort_records, StoreManager,
};

fn rec(cmd: &str, id: &str, secs: i64, wd: &str) -> CommandRecord {
    CommandRecord {
        command: cmd.to_string(),
        command_hash: "h".to_string(),
        timestamp: Timestamp { secs, nanos: 0 },
        working_dir: wd.to_string(),
        exit_code: 0,
        duration_ms: 1,
        record_id: id.to_string(),
        short_code: None,
    }
}

fn manager() -> StoreManager {
    StoreManager::new_with_config_and_base_dir(Config::default(), Some("/data/dt".to_string()))
}

#[test]
fn base_directory_choice() {
    assert_eq!(base_dir_for(Some("/x".to_string()), Some("/home/u".to_string())), "/x");
    assert_eq!(base_dir_for(None, Some("/home/u".to_string())), "/home/u/.dt");
    assert_eq!(base_dir_for(None, Some("/home/u/".to_string())), "/home/u/.dt");
    assert_eq!(base_dir_for(None, None), "./.dt");
    assert_eq!(manager().base_dir(), "/data/dt");
}

#[test]
fn storage_paths() {
    let m = manager();
    let r = rec("ls", "id", 1700000000, "/w");
    assert_eq!(m.records_dir(), "/data/dt/records");
    assert_eq!(m.record_dir("abc"), "/data/dt/records/abc");
    assert_eq!(m.meta_path(&r), "/data/dt/records/h/meta_1700000000.json");
    assert_eq!(m.stdout_path(&r), "/data/dt/records/h/stdout_1700000000.txt");
    assert_eq!(m.stderr_path(&r), "/data/dt/records/h/stderr_1700000000.txt");
    assert_eq!(m.index_path(), "/data/dt/index");
    assert_eq!(m.archive_path(2024), "/data/dt/index_2024.json");
}

#[test]
fn short_codes_are_the_smallest_unused() {
    assert_eq!(StoreManager::encode_bijective_base62(1), "a");
    assert_eq!(StoreManager::encode_bijective_base62(26), "z");
    assert_eq!(StoreManager::encode_bijective_base62(27), "A");
    assert_eq!(StoreManager::encode_bijective_base62(62), "9");
    assert_eq!(StoreManager::encode_bijective_base62(63), "aa");
    assert_eq!(StoreManager::encode_bijective_base62(0), "");
    let m = manager();
    let mut r = rec("ls", "id", 1, "/w");
    m.assign_short_code(&mut r, &vec!["a".to_string(), "c".to_string()]);
    assert_eq!(r.short_code.as_deref(), Some("b"));
    let mut r2 = rec("ls", "id", 1, "/w");
    m.assign_short_code(&mut r2, &Vec::new());
    assert_eq!(r2.short_code.as_deref(), Some("a"));
    assert_eq!(r2.command, "ls");
}

#[test]
fn retention_cutoff_is_whole_days_back() {
    let m = manager();
    let c = m.retention_cutoff(Timestamp { secs: 1_000_000_000, nanos: 7 });
    assert_eq!(c, Timestamp { secs: 1_000_000_000 - 365 * 86400, nanos: 7 });
}

#[test]
fn index_update_keeps_recent_runs_newest_first_and_archives_the_rest() {
    let m = manager();
    let entries = vec![rec("a", "1", 100, "/w"), rec("b", "2", 2000, "/w"), rec("c", "3", 3000, "/w")];
    let new = rec("d", "4", 2500, "/w");
    let cutoff = Timestamp { secs: 1000, nanos: 0 };
    let (index, groups) = m.index_update(entries, &new, cutoff);
    let ids: Vec<&str> = index.iter().map(|r| r.record_id.as_str()).collect();
    assert_eq!(ids, vec!["3", "4", "2"]);
    assert_eq!(groups.len(), 1);
    assert_eq!(groups[0].0, 1970);
    assert_eq!(groups[0].1.len(), 1);
    assert_eq!(groups[0].1[0].record_id, "1");

    let mut cfg = Config::default();
    cfg.storage.auto_archive = false;
    let m2 = StoreManager::new_with_config_and_base_dir(cfg, Some("/d".to_string()));
    let old = rec("x", "9", 5, "/w");
    let (index2, groups2) = m2.index_update(vec![old], &rec("y", "8", 6, "/w"), Timestamp { secs: 10, nanos: 0 });
    assert!(index2.is_empty());
    assert!(groups2.is_empty());
}

#[test]
fn archives_merge_newest_first() {
    let merged = merge_archive(vec![rec("a", "1", 10, "/w")], vec![rec("b", "2", 20, "/w"), rec("c", "3", 10, "/w")]);
    let ids: Vec<&str> = merged.iter().map(|r| r.record_id.as_str()).collect();
    assert_eq!(ids, vec!["2", "1", "3"]);
}

#[test]
fn grouping_by_year() {
    let rs = vec![
        rec("a", "1", 0, "/w"),
        rec("b", "2", 1_704_067_200, "/w"),
        rec("c", "3", 60, "/w"),
    ];
    let g = group_by_year(&rs);
    assert_eq!(g.len(), 2);
    assert_eq!(g[0].0, 1970);
    assert_eq!(g[0].1.len(), 2);
    assert_eq!(g[1].0, 2024);
    assert!(records_valid(&rs));
    assert!(!records_valid(&vec![rec("z", "z", i64::MAX, "/w")]));
}

#[test]
fn sorting_is_stable() {
    let rs = vec![rec("a", "1", 5, "/w"), rec("b", "2", 7, "/w"), rec("c", "3", 5, "/w")];
    let newest: Vec<String> = sort_records(rs, true).into_iter().map(|r| r.record_id).collect();
    assert_eq!(newest, vec!["2", "1", "3"]);
    let es: Vec<CommandExecution> = vec![rec("a", "1", 5, "/w"), rec("b", "2", 3, "/w")]
        .into_iter()
        .map(|r| CommandExecution {
            record: r,
            stdout: String::new(),
            stderr: String::new(),
            stdout_path: None,
            stderr_path: None,
            streamed_stdout: false,
            streamed_stderr: false,
        })
        .collect();
    let sorted = sort_executions(es, false);
    assert_eq!(sorted[0].record.record_id, "2");
}

#[test]
fn cleaning_by_query() {
    let m = manager();
    let rs = vec![rec("Git Status", "1", 1, "/w"), rec("ls -l", "2", 2, "/w")];
    assert!(m.clean_by_query(rs.clone(), "   ").is_none());
    let picked = m.clean_by_query(rs.clone(), " gst ").unwrap();
    assert_eq!(picked.len(), 1);
    assert_eq!(picked[0].record_id, "1");
    assert_eq!(m.clean_by_query(rs, "LS").unwrap().len(), 1);
}

#[test]
fn cleaning_by_file() {
    let m = manager();
    let rs = vec![
        rec("cat notes.txt", "1", 1, "/home/u"),
        rec("ls", "2", 2, "/home/u/proj"),
        rec("vim /home/u/proj/a.rs", "3", 3, "/tmp"),
        rec("echo", "4", 4, "/other"),
    ];
    let hit = m.clean_by_file(rs.clone(), "/home/u/proj", "/home/u/proj");
    let ids: Vec<&str> = hit.iter().map(|r| r.record_id.as_str()).collect();
    assert_eq!(ids, vec!["2", "3"]);
    let slash = m.clean_by_file(rs.clone(), "/home/u/proj/", "/home/u/proj/");
    let ids: Vec<&str> = slash.iter().map(|r| r.record_id.as_str()).collect();
    assert_eq!(ids, vec!["2", "3"]);
    let rel = m.clean_by_file(rs, "/home/u/notes.txt", "/home/u/notes.txt");
    assert_eq!(rel.len(), 1);
    assert_eq!(rel[0].record_id, "1");
}

#[test]
fn backup_adds_new_ids_once() {
    let m = manager();
    let rs = vec![rec("cat f", "1", 1, "/w"), rec("cat f", "2", 3, "/w"), rec("cat f", "2", 3, "/w")];
    let existing = vec![rec("cat f", "1", 1, "/w")];
    let merged = m.backup_by_file(rs.clone(), "f", "/w/f", existing).unwrap();
    let ids: Vec<&str> = merged.iter().map(|r| r.record_id.as_str()).collect();
    assert_eq!(ids, vec!["2", "1"]);
    assert!(m.backup_by_file(rs, "zzz", "/nope", Vec::new()).is_none());
}

#[test]
fn related_files() {
    let m = manager();
    assert_eq!(m.command_paths("cat a.txt | grep x /etc/hosts ls"), vec!["cat", "a.txt", "/etc/hosts", "ls"]);
    let rs = vec![rec("cat a.txt", "1", 1, "/w")];
    let related = m.get_related_files(&rs);
    assert_eq!(
        related,
        vec![("/w".to_string(), false), ("cat".to_string(), true), ("a.txt".to_string(), true)]
    );
}

#[test]
fn checked_cutoff_is_the_retention_period_back_or_none() {
    let m = manager();
    let now = Timestamp { secs: 1_700_000_000, nanos: 5 };
    assert_eq!(m.retention_cutoff_checked(now), Some(Timestamp { secs: 1_700_000_000 - 365 * 86400, nanos: 5 }));
    assert_eq!(m.retention_cutoff_checked(Timestamp { secs: 0, nanos: 1_000_000_000 }), None);
    assert_eq!(m.retention_cutoff_checked(Timestamp { secs: i64::MAX, nanos: 0 }), None);
    let mut cfg = Config::default();
    cfg.storage.max_retention_days = u32::MAX;
    let far = StoreManager::new_with_config_and_base_dir(cfg, Some("/x".to_string()));
    assert_eq!(far.retention_cutoff_checked(now), None);
}

#[test]
fn listing_and_cleaning_select_the_same_records() {
    let m = manager();
    let records = vec![
        rec("ls -la", "1", 1, "/w"),
        rec("git status", "2", 2, "/w"),
        rec("Cargo build", "3", 3, "/w"),
        rec("echo lsx", "4", 4, "/w"),
    ];
    for q in ["ls", " CARGO ", "gs", "zzz", "l a"] {
        let listed = diff_by_time::cli::matching_records(&records, q);
        let cleaned = m.clean_by_query(records.clone(), q).expect("a non-blank query");
        let a: Vec<&str> = listed.iter().map(|r| r.record_id.as_str()).collect();
        let b: Vec<&str> = cleaned.iter().map(|r| r.record_id.as_str()).collect();
        assert_eq!(a, b, "query {:?}", q);
    }
    assert_eq!(diff_by_time::cli::matching_records(&records, "  ").len(), 4);
    assert!(m.clean_by_query(records, "  ").is_none());
}

#[test]
fn related_paths_are_kept_once_in_path_order() {
    let paths = vec![
        "/w/b".to_string(),
        "/w/a.b".to_string(),
        "/w/a/b".to_string(),
        "/w//b".to_string(),
        "/w/b".to_string(),
        "x".to_string(),
    ];
    assert_eq!(sort_paths(&paths), vec!["/w/a/b", "/w/a.b", "/w/b", "x"]);
    assert!(sort_paths(&Vec::new()).is_empty());
}
