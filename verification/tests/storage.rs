use sha2::{Digest, Sha256};
use diff_by_time::executor::CommandExecutor;
use diff_by_time::storage::{format_command, hash_command, Timestamp};

#[test]
fn test_format_command_trim_quotes() {
    assert_eq!(format_command("'ls -l'"), "ls -l");
    assert_eq!(format_command("\"ls -l\""), "ls -l");
    assert_eq!(format_command("  'ls -l'  "), "ls -l");
    assert_eq!(format_command("'  ls -l  '"), "ls -l");
    assert_eq!(format_command("\"'ls -l'\""), "ls -l");
    assert_eq!(format_command("'\"ls -l\"'"), "ls -l");
}

#[test]
fn test_format_command_normalization() {
    assert_eq!(format_command("ls    -l"), "ls -l");
    assert_eq!(format_command("ls | grep a"), "ls|grep a");
    assert_eq!(format_command("ls  |  grep  a"), "ls|grep a");
}

#[test]
fn test_hash_command_consistency() {
    let h1 = hash_command("ls -l");
    let h2 = hash_command("  'ls -l'  ");
    let h3 = hash_command("\"ls -l\"");
    assert_eq!(h1, h2);
    assert_eq!(h1, h3);
}

#[test]
fn format_command_is_idempotent_on_examples() {
    for s in ["  'a   |  b'  ", "\"x\ty\"", "'", "''", " | ", "a|  b |c"] {
        let once = format_command(s);
        assert_eq!(format_command(&once), once);
    }
}

#[test]
fn format_command_keeps_a_lone_quote() {
    assert_eq!(format_command("'"), "'");
    assert_eq!(format_command("''"), "");
}

#[test]
fn hash_command_is_hex_sha256_of_canonical_form() {
    let h = hash_command("  echo   hi ");
    assert_eq!(h.len(), 64);
    let expected = hex::encode(Sha256::digest(b"echo hi"));
    assert_eq!(h, expected);
}

#[test]
fn record_run_builds_the_record() {
    let e = CommandExecutor::record_run(
        "  'ls   -l'  ",
        b"out\n",
        b"\xffbad",
        None,
        12,
        "/tmp".to_string(),
        Timestamp { secs: 1700000000, nanos: 5 },
    );
    assert_eq!(e.record.command, "ls -l");
    assert_eq!(e.record.command_hash, hash_command("ls -l"));
    assert_eq!(e.record.record_id, format!("{}_1700000000", hash_command("ls -l")));
    assert_eq!(e.record.exit_code, -1);
    assert_eq!(e.record.duration_ms, 12);
    assert_eq!(e.stdout, "out\n");
    assert_eq!(e.stderr, "\u{fffd}bad");
    assert!(e.record.short_code.is_none());
    assert!(e.streamed_stdout && e.streamed_stderr);
    let e2 = CommandExecutor::record_run("x", b"", b"", Some(3), 0, String::new(), Timestamp { secs: -5, nanos: 0 });
    assert_eq!(e2.record.exit_code, 3);
    assert!(e2.record.record_id.ends_with("_-5"));
}

#[test]
fn padding_and_one_quote_pair_do_not_change_the_canonical_form() {
    for s in ["git  status |  wc -l", "'x'", "  a\tb  ", ""] {
        let base = format_command(s);
        assert_eq!(format_command(&format!(" \t{}\n ", s)), base);
        assert_eq!(format_command(&format!("'{}'", s)), base);
        assert_eq!(format_command(&format!("\"{}\"", s)), base);
    }
}
