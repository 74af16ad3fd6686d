//! The decisions of the command-line front end: how arguments become one
//! shell command line, which help page a request asks for, how a
//! confirmation answer reads, how environment overrides settle the display
//! mode, which records a listing shows and how a listing line reads.

use vstd::prelude::*;
use vstd::utf8::encode_utf8;
use crate::short_code::holds_code;
use crate::storage::{hex_encode, hex_lower, sha256, sha256_digest, squeeze, squeeze_range, CommandExecution, CommandRecord};
use crate::store_manager::{copy_records, query_selects};
use crate::text::{
    chars_of, dec_digits, decimal, owned, push_str, replace_all, replaced, same_text, signed_decimal,
    signed_digits, string_of, trim, trim_bounds, trim_str,
};
use crate::words::{contains_text, is_subsequence, lowercase, texts, to_lower};

verus! {

/// A character that needs no quoting in a shell word.
pub open spec fn plain_char(c: char) -> bool {
    ||| 'a' <= c <= 'z'
    ||| 'A' <= c <= 'Z'
    ||| '0' <= c <= '9'
    ||| c == '_' || c == '-' || c == '.' || c == '/' || c == ':'
    ||| c == ',' || c == '@' || c == '+' || c == '%' || c == '='
}

/// One argument as a shell word: `''` when empty, unchanged when every
/// character is plain, else in single quotes with each `'` written `'\''`.
pub open spec fn shell_quoted(a: Seq<char>) -> Seq<char> {
    if a.len() == 0 {
        "''"@
    } else if forall|i: int| 0 <= i < a.len() ==> plain_char(#[trigger] a[i]) {
        a
    } else {
        seq!['\''] + replaced(a, seq!['\''], "'\\''"@) + seq!['\'']
    }
}

/// `parts` joined with single spaces.
pub open spec fn spaced(parts: Seq<Seq<char>>) -> Seq<char>
    decreases parts.len(),
{
    if parts.len() == 0 {
        seq![]
    } else if parts.len() == 1 {
        parts[0]
    } else {
        spaced(parts.drop_last()) + seq![' '] + parts.last()
    }
}

/// The command line for the arguments: a single argument as it is (so a
/// quoted pipeline stays one command line), else each argument as a shell
/// word, separated by spaces.
pub open spec fn shell_line(args: Seq<Seq<char>>) -> Seq<char> {
    if args.len() == 1 {
        args[0]
    } else {
        spaced(args.map_values(|a: Seq<char>| shell_quoted(a)))
    }
}

/// Whether `c` needs no quoting.
fn is_plain(c: char) -> (r: bool)
    ensures
        r == plain_char(c),
{
    ('a' <= c && c <= 'z') || ('A' <= c && c <= 'Z') || ('0' <= c && c <= '9') || c == '_' || c
        == '-' || c == '.' || c == '/' || c == ':' || c == ',' || c == '@' || c == '+' || c == '%'
        || c == '='
}

/// One argument as a shell word (see `shell_quoted`).
pub fn shell_quote(arg: &str) -> (r: String)
    ensures
        r@ == shell_quoted(arg@),
{
    let cs = chars_of(arg);
    if cs.len() == 0 {
        return owned("''");
    }
    let mut i: usize = 0;
    while i < cs.len()
        invariant
            cs@ == arg@,
            i <= cs@.len(),
            forall|k: int| 0 <= k < i ==> plain_char(#[trigger] cs@[k]),
        decreases cs@.len() - i,
    {
        if !is_plain(cs[i]) {
            proof {
                reveal_strlit("'");
            }
            let escaped = replace_all(arg, "'", "'\\''");
            let mut r = owned("'");
            push_str(&mut r, escaped.as_str());
            push_str(&mut r, "'");
            proof {
                assert(!plain_char(arg@[i as int]));
                reveal_strlit("'");
                assert("'"@ =~= seq!['\'']);
            }
            return r;
        }
        i += 1;
    }
    owned(arg)
}

/// The command line for the arguments (see `shell_line`).
pub fn join_args_for_shell(args: &Vec<String>) -> (r: String)
    ensures
        r@ == shell_line(texts(args@)),
{
    if args.len() == 1 {
        return args[0].clone();
    }
    let ghost words = texts(args@).map_values(|a: Seq<char>| shell_quoted(a));
    let mut r = String::new();
    let mut i: usize = 0;
    while i < args.len()
        invariant
            i <= args@.len(),
            args@.len() != 1,
            words == texts(args@).map_values(|a: Seq<char>| shell_quoted(a)),
            r@ == spaced(words.take(i as int)),
        decreases args@.len() - i,
    {
        let w = shell_quote(args[i].as_str());
        proof {
            assert(words.take(i + 1).drop_last() =~= words.take(i as int));
            assert(words.take(i + 1).last() == w@);
        }
        if i > 0 {
            push_str(&mut r, " ");
        }
        push_str(&mut r, w.as_str());
        proof {
            reveal_strlit(" ");
            if i == 0 {
                assert(words.take(1) =~= seq![w@]);
                assert(r@ =~= w@);
            } else {
                assert(r@ =~= spaced(words.take(i as int)) + seq![' '] + w@);
            }
        }
        i += 1;
    }
    assert(words.take(i as int) =~= words);
    r
}

/// The command line as the lookup of earlier runs writes it: trimmed,
/// whitespace runs collapsed and spaces around `|` removed (outer quotes
/// are kept).
pub open spec fn plain_form(s: Seq<char>) -> Seq<char> {
    trim(squeeze(trim(s)))
}

/// The command line in the form the lookup of earlier runs uses.
pub fn format_command(command: &str) -> (r: String)
    ensures
        r@ == plain_form(command@),
{
    let cs = chars_of(command);
    let (lo, hi) = trim_bounds(&cs, 0, cs.len());
    assert(cs@.subrange(0, cs@.len() as int) =~= command@);
    let res = squeeze_range(&cs, lo, hi);
    let (a, b) = trim_bounds(&res, 0, res.len());
    assert(res@.subrange(0, res@.len() as int) =~= res@);
    string_of(&res, a, b)
}

/// Hex SHA-256 of the lookup form of a command line.
pub open spec fn lookup_hash_of(command: Seq<char>) -> Seq<char> {
    hex_lower(sha256(encode_utf8(plain_form(command))))
}

/// The hash under which earlier runs of a command line are looked up.
pub fn hash_command(command: &str) -> (r: String)
    ensures
        r@ == lookup_hash_of(command@),
{
    let formatted = format_command(command);
    let digest = sha256_digest(formatted.as_str().as_bytes());
    hex_encode(digest.as_slice())
}

/// Whether argument `i` exists and reads `w`.
pub open spec fn arg_is(a: Seq<Seq<char>>, i: int, w: Seq<char>) -> bool {
    i < a.len() && a[i] == w
}

/// The request asks for help: `--help` or `-h` anywhere, no subcommand,
/// `help`, or `clean help`, `clean --help`, `clean -h`.
pub open spec fn help_wanted(a: Seq<Seq<char>>) -> bool {
    ||| a.contains("--help"@)
    ||| a.contains("-h"@)
    ||| a.len() == 1
    ||| arg_is(a, 1, "help"@)
    ||| (arg_is(a, 1, "clean"@) && (arg_is(a, 2, "help"@) || arg_is(a, 2, "--help"@) || arg_is(
        a,
        2,
        "-h"@,
    )))
}

/// What the program does first with its arguments.
#[derive(Debug, Clone, Copy, PartialEq, Eq, Structural)]
pub enum Startup {
    /// Print the name and version.
    Version,
    /// Print a help page.
    Help,
    /// Parse the arguments and run the subcommand.
    Proceed,
}

/// The first step for the arguments: the version for `--version`, `-v` or
/// `-V`; help when asked for, or for `run` or `clean` alone; else proceed.
pub open spec fn startup_of(a: Seq<Seq<char>>) -> Startup {
    if arg_is(a, 1, "--version"@) || arg_is(a, 1, "-v"@) || arg_is(a, 1, "-V"@) {
        Startup::Version
    } else if help_wanted(a) || (a.len() == 2 && (a[1] == "run"@ || a[1] == "clean"@)) {
        Startup::Help
    } else {
        Startup::Proceed
    }
}

/// Whether one of `args` reads `w`.
fn has_arg(args: &Vec<String>, w: &str) -> (r: bool)
    ensures
        r == texts(args@).contains(w@),
{
    let mut i: usize = 0;
    while i < args.len()
        invariant
            i <= args@.len(),
            forall|k: int| 0 <= k < i ==> args@[k]@ != w@,
        decreases args@.len() - i,
    {
        if same_text(args[i].as_str(), w) {
            assert(texts(args@)[i as int] == w@);
            return true;
        }
        i += 1;
    }
    proof {
        if texts(args@).contains(w@) {
            let k = choose|k: int| 0 <= k < texts(args@).len() && texts(args@)[k] == w@;
            assert(args@[k]@ == w@);
        }
    }
    false
}

/// Whether argument `i` exists and reads `w`.
fn arg_at(args: &Vec<String>, i: usize, w: &str) -> (r: bool)
    ensures
        r == arg_is(texts(args@), i as int, w@),
{
    i < args.len() && same_text(args[i].as_str(), w)
}

/// Whether the request asks for help (see `help_wanted`).
pub fn needs_help(args: &Vec<String>) -> (r: bool)
    ensures
        r == help_wanted(texts(args@)),
{
    has_arg(args, "--help") || has_arg(args, "-h") || args.len() == 1 || arg_at(args, 1, "help") || (
    arg_at(args, 1, "clean") && (arg_at(args, 2, "help") || arg_at(args, 2, "--help") || arg_at(
        args,
        2,
        "-h",
    )))
}

/// The first step for the arguments (see `startup_of`).
pub fn startup_action(args: &Vec<String>) -> (r: Startup)
    ensures
        r == startup_of(texts(args@)),
{
    if arg_at(args, 1, "--version") || arg_at(args, 1, "-v") || arg_at(args, 1, "-V") {
        Startup::Version
    } else if needs_help(args) || (args.len() == 2 && (arg_at(args, 1, "run") || arg_at(
        args,
        1,
        "clean",
    ))) {
        Startup::Help
    } else {
        Startup::Proceed
    }
}

/// A help page.
#[derive(Debug, Clone, Copy, PartialEq, Eq, Structural)]
pub enum HelpPage {
    /// The overview of all subcommands.
    Main,
    /// `clean search`.
    CleanSearch,
    /// `clean file`.
    CleanFile,
    /// `clean all`.
    CleanAll,
    /// `clean` with an unknown mode: the list of modes.
    CleanModes,
    /// `run`.
    Run,
    /// `diff`.
    Diff,
    /// `ls` or `list`.
    Ls,
    /// `clean`.
    Clean,
    /// An unknown subcommand: the overview without `ls`.
    Unknown,
    /// No arguments at all: nothing is printed.
    Nothing,
}

/// The help page for the arguments.
pub open spec fn help_page_of(a: Seq<Seq<char>>) -> HelpPage {
    if a.len() == 1 || arg_is(a, 1, "--help"@) || arg_is(a, 1, "-h"@) {
        HelpPage::Main
    } else if a.len() >= 3 && a[1] == "clean"@ {
        if a[2] == "search"@ {
            HelpPage::CleanSearch
        } else if a[2] == "file"@ {
            HelpPage::CleanFile
        } else if a[2] == "all"@ {
            HelpPage::CleanAll
        } else {
            HelpPage::CleanModes
        }
    } else if a.len() >= 2 {
        if a[1] == "run"@ {
            HelpPage::Run
        } else if a[1] == "diff"@ {
            HelpPage::Diff
        } else if a[1] == "ls"@ || a[1] == "list"@ {
            HelpPage::Ls
        } else if a[1] == "clean"@ {
            HelpPage::Clean
        } else {
            HelpPage::Unknown
        }
    } else {
        HelpPage::Nothing
    }
}

/// The help page for the arguments (see `help_page_of`).
pub fn help_page(args: &Vec<String>) -> (r: HelpPage)
    ensures
        r == help_page_of(texts(args@)),
{
    if args.len() == 1 || arg_at(args, 1, "--help") || arg_at(args, 1, "-h") {
        HelpPage::Main
    } else if args.len() >= 3 && arg_at(args, 1, "clean") {
        if arg_at(args, 2, "search") {
            HelpPage::CleanSearch
        } else if arg_at(args, 2, "file") {
            HelpPage::CleanFile
        } else if arg_at(args, 2, "all") {
            HelpPage::CleanAll
        } else {
            HelpPage::CleanModes
        }
    } else if args.len() >= 2 {
        if arg_at(args, 1, "run") {
            HelpPage::Run
        } else if arg_at(args, 1, "diff") {
            HelpPage::Diff
        } else if arg_at(args, 1, "ls") || arg_at(args, 1, "list") {
            HelpPage::Ls
        } else if arg_at(args, 1, "clean") {
            HelpPage::Clean
        } else {
            HelpPage::Unknown
        }
    } else {
        HelpPage::Nothing
    }
}

/// How an answer to the deletion prompt reads: with "all" already given,
/// yes without asking; `all` (any case, surrounding whitespace ignored)
/// means yes to this and every later prompt; `yes` means yes; anything
/// else no. The second value says whether later prompts are skipped.
pub open spec fn confirm_of(input: Seq<char>, skip_all: bool) -> (bool, bool) {
    if skip_all {
        (true, true)
    } else if lowercase(trim(input)) == "all"@ {
        (true, true)
    } else {
        (lowercase(trim(input)) == "yes"@, false)
    }
}

/// Answering `all` confirms this deletion and every later one in the same
/// run of the program, whatever is answered then; any other answer leaves
/// the later prompts to be answered on their own.
pub proof fn lemma_all_confirms_later(first: Seq<char>, later: Seq<char>)
    ensures
        lowercase(trim(first)) == "all"@ ==> confirm_of(first, false).0 && confirm_of(
            later,
            confirm_of(first, false).1,
        ) == (true, true),
        lowercase(trim(first)) != "all"@ ==> confirm_of(later, confirm_of(first, false).1) == confirm_of(
            later,
            false,
        ),
{
}

/// The reading of an answer to the deletion prompt (see `confirm_of`).
pub fn confirm_reply(input: &str, skip_all: bool) -> (r: (bool, bool))
    ensures
        r == confirm_of(input@, skip_all),
{
    if skip_all {
        return (true, true);
    }
    let t = trim_str(input);
    let l = to_lower(t.as_str());
    if same_text(l.as_str(), "all") {
        return (true, true);
    }
    (same_text(l.as_str(), "yes"), false)
}

/// Whether the simple (line-based) selection is used: an environment value
/// of `0`, `false` or `simple` (any case) turns it on and any other value
/// off; without one, the `tui_mode` setting decides (`simple`, any case).
pub open spec fn tui_simple_of(env: Option<Seq<char>>, tui_mode: Seq<char>) -> bool {
    match env {
        Some(v) => lowercase(v) == "0"@ || lowercase(v) == "false"@ || lowercase(v) == "simple"@,
        None => lowercase(tui_mode) == "simple"@,
    }
}

/// Whether the interactive mode uses the alternate screen: an environment
/// value of `0` or `false` (any case) turns it off and any other value on;
/// without one, the setting decides.
pub open spec fn alt_screen_of(env: Option<Seq<char>>, setting: bool) -> bool {
    match env {
        Some(v) => !(lowercase(v) == "0"@ || lowercase(v) == "false"@),
        None => setting,
    }
}

/// The text of an optional string slice.
pub open spec fn opt_str_view(o: Option<&str>) -> Option<Seq<char>> {
    match o {
        Some(t) => Some(t@),
        None => None,
    }
}

/// Whether the simple selection is used (see `tui_simple_of`).
pub fn resolve_tui_simple(env: Option<&str>, tui_mode: &str) -> (r: bool)
    ensures
        r == tui_simple_of(opt_str_view(env), tui_mode@),
{
    match env {
        Some(v) => {
            let l = to_lower(v);
            same_text(l.as_str(), "0") || same_text(l.as_str(), "false") || same_text(
                l.as_str(),
                "simple",
            )
        },
        None => {
            let l = to_lower(tui_mode);
            same_text(l.as_str(), "simple")
        },
    }
}

/// Whether the alternate screen is used (see `alt_screen_of`).
pub fn resolve_alt_screen(env: Option<&str>, setting: bool) -> (r: bool)
    ensures
        r == alt_screen_of(opt_str_view(env), setting),
{
    match env {
        Some(v) => {
            let l = to_lower(v);
            !(same_text(l.as_str(), "0") || same_text(l.as_str(), "false"))
        },
        None => setting,
    }
}

/// The records a listing shows for a query: all of them for an empty
/// query, else those whose lower-cased command holds the trimmed,
/// lower-cased query as a substring or subsequence, in order.
pub open spec fn listed(records: Seq<CommandRecord>, query: Seq<char>) -> Seq<CommandRecord> {
    if trim(query).len() == 0 {
        records
    } else {
        records.filter(|c: CommandRecord| query_selects(c.command@, lowercase(trim(query))))
    }
}

/// The records a listing shows (see `listed`).
pub fn matching_records(records: &Vec<CommandRecord>, query: &str) -> (r: Vec<CommandRecord>)
    ensures
        r@ == listed(records@, query@),
{
    let t = trim_str(query);
    let q = to_lower(t.as_str());
    if q.as_str().is_empty() {
        return copy_records(records);
    }
    let ghost pred = |c: CommandRecord| query_selects(c.command@, lowercase(trim(query@)));
    let mut out: Vec<CommandRecord> = Vec::new();
    let mut i: usize = 0;
    while i < records.len()
        invariant
            i <= records@.len(),
            q@ == lowercase(trim(query@)),
            pred == (|c: CommandRecord| query_selects(c.command@, lowercase(trim(query@)))),
            out@ == records@.take(i as int).filter(pred),
        decreases records@.len() - i,
    {
        let rec = &records[i];
        let cl = to_lower(rec.command.as_str());
        let keep = contains_text(cl.as_str(), q.as_str()) || is_subsequence(q.as_str(), cl.as_str());
        proof {
            assert(records@.take(i + 1) =~= records@.take(i as int).push(records@[i as int]));
            records@.take(i as int).lemma_filter_push(records@[i as int], pred);
        }
        if keep {
            out.push(rec.duplicate());
        }
        i += 1;
    }
    assert(records@.take(i as int) =~= records@);
    out
}

/// A listing and a cleaning by the same query agree: for a query with
/// text besides whitespace, `dt ls` shows exactly the records, in order,
/// that `dt clean search` removes; an all-whitespace query lists every
/// record, while the cleaning removes none.
pub proof fn lemma_listing_is_cleaning(records: Seq<CommandRecord>, query: Seq<char>)
    ensures
        trim(query).len() > 0 ==> listed(records, query) == records.filter(
            |c: CommandRecord| query_selects(c.command@, lowercase(trim(query))),
        ),
        trim(query).len() == 0 ==> listed(records, query) == records,
{
}

/// One line of a text listing: time, exit code, duration, the short code
/// when there is one, and the command.
pub open spec fn listing_line(r: CommandRecord, time: Seq<char>) -> Seq<char> {
    time + " exit="@ + signed_digits(r.exit_code as int) + " dur="@ + dec_digits(r.duration_ms as nat)
        + "ms"@ + match r.short_code {
        Some(c) => " [code:"@ + c@ + "]"@,
        None => Seq::<char>::empty(),
    } + " "@ + r.command@
}

/// One line of a text listing (see `listing_line`); `time` is the run's
/// time as shown to the user.
pub fn record_line(r: &CommandRecord, time: &str) -> (line: String)
    ensures
        line@ == listing_line(*r, time@),
{
    let mut s = owned(time);
    push_str(&mut s, " exit=");
    let e = signed_decimal(r.exit_code as i64);
    push_str(&mut s, e.as_str());
    push_str(&mut s, " dur=");
    let d = decimal(r.duration_ms);
    push_str(&mut s, d.as_str());
    push_str(&mut s, "ms");
    let ghost before = s@;
    match &r.short_code {
        Some(c) => {
            push_str(&mut s, " [code:");
            push_str(&mut s, c.as_str());
            push_str(&mut s, "]");
        },
        None => {},
    }
    let ghost mid = s@;
    push_str(&mut s, " ");
    push_str(&mut s, r.command.as_str());
    proof {
        if r.short_code is Some {
            assert(mid =~= before + (" [code:"@ + r.short_code->0@ + "]"@));
        } else {
            assert(mid =~= before + Seq::<char>::empty());
        }
        assert(s@ =~= listing_line(*r, time@));
    }
    s
}

/// The command hashes of `records`.
pub open spec fn hashes(records: Seq<CommandRecord>) -> Seq<Seq<char>> {
    records.map_values(|r: CommandRecord| r.command_hash@)
}

/// How many different commands the records hold.
pub fn command_count(records: &Vec<CommandRecord>) -> (r: usize)
    ensures
        r == hashes(records@).to_set().len(),
{
    let mut seen: Vec<String> = Vec::new();
    let mut i: usize = 0;
    while i < records.len()
        invariant
            i <= records@.len(),
            texts(seen@).no_duplicates(),
            texts(seen@).to_set() == hashes(records@).take(i as int).to_set(),
            seen@.len() <= i,
        decreases records@.len() - i,
    {
        let h = &records[i].command_hash;
        let mut found = false;
        let mut j: usize = 0;
        while j < seen.len()
            invariant
                j <= seen@.len(),
                !found ==> forall|q: int| 0 <= q < j ==> seen@[q]@ != h@,
                found ==> texts(seen@).contains(h@),
            decreases seen@.len() - j,
        {
            if !found && same_text(seen[j].as_str(), h.as_str()) {
                found = true;
                assert(texts(seen@)[j as int] == h@);
            }
            j += 1;
        }
        let ghost before = texts(seen@);
        proof {
            assert(hashes(records@).take(i + 1) =~= hashes(records@).take(i as int).push(h@));
        }
        if !found {
            seen.push(h.clone());
            proof {
                assert(texts(seen@) =~= before.push(h@));
                assert forall|q: int| 0 <= q < before.len() implies before[q] != h@ by {
                    assert(before[q] == seen@[q]@);
                }
                before.lemma_push_to_set_commute(h@);
                hashes(records@).take(i as int).lemma_push_to_set_commute(h@);
            }
        } else {
            proof {
                assert(before.to_set().contains(h@));
                hashes(records@).take(i as int).lemma_push_to_set_commute(h@);
                assert(before.to_set().insert(h@) =~= before.to_set());
            }
        }
        i += 1;
    }
    proof {
        assert(hashes(records@).take(i as int) =~= hashes(records@));
        texts(seen@).unique_seq_to_set();
    }
    seen.len()
}

/// Execution `e` carries short code `code` and is not the run `exclude`.
pub open spec fn code_target(e: CommandExecution, exclude: Seq<char>, code: Seq<char>) -> bool {
    e.record.record_id@ != exclude && e.record.short_code is Some && e.record.short_code->0@ == code
}

/// The position of the first execution that carries short code `code` and
/// is not the run `exclude`, if any.
pub fn find_by_code(executions: &Vec<CommandExecution>, exclude: &str, code: &str) -> (r: Option<usize>)
    ensures
        match r {
            Some(i) => i < executions@.len() && code_target(executions@[i as int], exclude@, code@)
                && forall|j: int| 0 <= j < i ==> !code_target(#[trigger] executions@[j], exclude@, code@),
            None => forall|j: int|
                0 <= j < executions@.len() ==> !code_target(#[trigger] executions@[j], exclude@, code@),
        },
{
    let mut i: usize = 0;
    while i < executions.len()
        invariant
            i <= executions@.len(),
            forall|j: int| 0 <= j < i ==> !code_target(#[trigger] executions@[j], exclude@, code@),
        decreases executions@.len() - i,
    {
        let e = &executions[i];
        let hit = match &e.record.short_code {
            Some(c) => !same_text(e.record.record_id.as_str(), exclude) && same_text(c.as_str(), code),
            None => false,
        };
        if hit {
            return Some(i);
        }
        i += 1;
    }
    None
}

/// The run a diff target names, among `executions` (oldest first) other
/// than the run `exclude`: `first` the earliest, `last` the latest, any
/// other text the first run carrying it as short code.
pub open spec fn target_ok(executions: Seq<CommandExecution>, exclude: Seq<char>, target: Seq<char>, r: Option<usize>) -> bool {
    if target == "first"@ {
        match r {
            Some(i) => i < executions.len() && executions[i as int].record.record_id@ != exclude && forall|j: int|
                0 <= j < i ==> (#[trigger] executions[j]).record.record_id@ == exclude,
            None => forall|j: int| 0 <= j < executions.len() ==> (#[trigger] executions[j]).record.record_id@ == exclude,
        }
    } else if target == "last"@ {
        match r {
            Some(i) => i < executions.len() && executions[i as int].record.record_id@ != exclude && forall|j: int|
                i < j < executions.len() ==> (#[trigger] executions[j]).record.record_id@ == exclude,
            None => forall|j: int| 0 <= j < executions.len() ==> (#[trigger] executions[j]).record.record_id@ == exclude,
        }
    } else {
        match r {
            Some(i) => i < executions.len() && code_target(executions[i as int], exclude, target) && forall|j: int|
                0 <= j < i ==> !code_target(#[trigger] executions[j], exclude, target),
            None => forall|j: int| 0 <= j < executions.len() ==> !code_target(#[trigger] executions[j], exclude, target),
        }
    }
}

/// The run a diff target names (see `target_ok`).
pub fn find_diff_target(executions: &Vec<CommandExecution>, exclude: &str, target: &str) -> (r: Option<usize>)
    ensures
        target_ok(executions@, exclude@, target@, r),
{
    if same_text(target, "first") {
        let mut i: usize = 0;
        while i < executions.len()
            invariant
                i <= executions@.len(),
                target@ == "first"@,
                forall|j: int| 0 <= j < i ==> (#[trigger] executions@[j]).record.record_id@ == exclude@,
            decreases executions@.len() - i,
        {
            if !same_text(executions[i].record.record_id.as_str(), exclude) {
                return Some(i);
            }
            i += 1;
        }
        return None;
    }
    if same_text(target, "last") {
        proof {
            reveal_strlit("first");
            reveal_strlit("last");
            assert(target@ != "first"@);
        }
        let mut i: usize = executions.len();
        while i > 0
            invariant
                i <= executions@.len(),
                target@ == "last"@,
                target@ != "first"@,
                forall|j: int| i <= j < executions@.len() ==> (#[trigger] executions@[j]).record.record_id@ == exclude@,
            decreases i,
        {
            if !same_text(executions[i - 1].record.record_id.as_str(), exclude) {
                return Some(i - 1);
            }
            i -= 1;
        }
        return None;
    }
    find_by_code(executions, exclude, target)
}

} // verus!
