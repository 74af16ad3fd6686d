//! The help pages: their text for each page `help_page` picks, with the
//! subcommand names colored as the terminal allows.

use vstd::prelude::*;
use crate::cli::HelpPage;
use crate::i18n::{fill, I18n};
use crate::preview::views;
use crate::text::push_str;
use crate::textdiff::{green, paint_green, shown};

verus! {

/// The names of the subcommands and modes the pages list, in the order
/// `help_text` colors them.
pub open spec fn help_names() -> Seq<Seq<char>> {
    seq!["run"@, "diff"@, "ls"@, "clean"@, "parse"@, "help"@, "search"@, "file"@, "all"@]
}

/// `c` shows each name of `help_names`, plain or colored green.
pub open spec fn names_shown(c: Seq<Seq<char>>) -> bool {
    &&& c.len() == 9
    &&& forall|i: int| 0 <= i < 9 ==> shown(#[trigger] c[i], help_names()[i], green())
}

/// The lines, each ended by a newline.
pub open spec fn joined(lines: Seq<Seq<char>>) -> Seq<char>
    decreases lines.len(),
{
    if lines.len() == 0 {
        seq![]
    } else {
        joined(lines.drop_last()) + lines.last() + seq!['\n']
    }
}

/// The lines of the help page for the overview of all subcommands; `c` are the names of the
/// subcommands and modes as shown (see `help_names`).
pub open spec fn help_main(i18n: I18n, c: Seq<Seq<char>>) -> Seq<Seq<char>> {
    seq![
        i18n.text_for("help_about"@),
        Seq::<char>::empty(),
        i18n.text_for("help_label_usage"@) + " dt <COMMAND>"@,
        Seq::<char>::empty(),
        i18n.text_for("help_label_commands"@),
        "  "@ + c[0] + "    "@ + i18n.text_for("help_run"@),
        "  "@ + c[1] + "   "@ + i18n.text_for("help_diff"@),
        "  "@ + c[2] + "     "@ + i18n.text_for("help_ls"@),
        "  "@ + c[3] + "  "@ + i18n.text_for("help_clean"@),
        "  "@ + c[4] + "   "@ + i18n.text_for("help_parse"@),
        "  "@ + c[5] + "   Print this message or the help of the given subcommand(s)"@,
        fill(i18n.text_for("help_tip_run_diff_code"@), seq![i18n.text_for("help_run_diff_code"@)]),
        i18n.text_for("help_pipeline_tip"@),
        i18n.text_for("help_subcommand_more"@),
        Seq::<char>::empty(),
        i18n.text_for("help_label_options"@),
        "  -h, --help           Print help"@,
        "  -v, -V, --version    Print version info"@,
        "      --data-dir <DIR> Override data directory (default: ~/.dt)"@,
        Seq::<char>::empty(),
        i18n.text_for("help_config_section"@),
        "  - "@ + i18n.text_for("help_config_tui_mode"@),
        "  - "@ + i18n.text_for("help_config_alt_screen"@),
    ]
}

/// The lines of the help page for `clean search`; `c` are the names of the
/// subcommands and modes as shown (see `help_names`).
pub open spec fn help_clean_search(i18n: I18n, c: Seq<Seq<char>>) -> Seq<Seq<char>> {
    seq![
        i18n.text_for("help_clean_search"@),
        Seq::<char>::empty(),
        i18n.text_for("help_label_usage"@) + " dt clean search [QUERY]"@,
        Seq::<char>::empty(),
        i18n.text_for("help_label_arguments"@),
        "  [QUERY]  "@ + i18n.text_for("help_clean_search_arg"@),
        Seq::<char>::empty(),
        i18n.text_for("help_label_options"@),
        "      --dry-run  "@ + i18n.text_for("help_clean_dry_run"@),
        "  -h, --help  Print help"@,
    ]
}

/// The lines of the help page for `clean file`; `c` are the names of the
/// subcommands and modes as shown (see `help_names`).
pub open spec fn help_clean_file(i18n: I18n, c: Seq<Seq<char>>) -> Seq<Seq<char>> {
    seq![
        i18n.text_for("help_clean_file"@),
        Seq::<char>::empty(),
        i18n.text_for("help_label_usage"@) + " dt clean file [FILE]"@,
        Seq::<char>::empty(),
        i18n.text_for("help_label_arguments"@),
        "  [FILE]  "@ + i18n.text_for("help_clean_file_arg"@),
        Seq::<char>::empty(),
        i18n.text_for("help_label_options"@),
        "      --dry-run  "@ + i18n.text_for("help_clean_dry_run"@),
        "  -h, --help  Print help"@,
    ]
}

/// The lines of the help page for `clean all`; `c` are the names of the
/// subcommands and modes as shown (see `help_names`).
pub open spec fn help_clean_all(i18n: I18n, c: Seq<Seq<char>>) -> Seq<Seq<char>> {
    seq![
        i18n.text_for("help_clean_all"@),
        Seq::<char>::empty(),
        i18n.text_for("help_label_usage"@) + " dt clean all"@,
        Seq::<char>::empty(),
        i18n.text_for("help_label_options"@),
        "  -h, --help  Print help"@,
    ]
}

/// The lines of the help page for `clean` with an unknown mode; `c` are the names of the
/// subcommands and modes as shown (see `help_names`).
pub open spec fn help_clean_modes(i18n: I18n, c: Seq<Seq<char>>) -> Seq<Seq<char>> {
    seq![
        i18n.text_for("help_clean"@),
        Seq::<char>::empty(),
        i18n.text_for("help_label_usage"@) + " dt clean <COMMAND>"@,
        Seq::<char>::empty(),
        i18n.text_for("help_label_commands"@),
        "  "@ + c[6] + "  "@ + i18n.text_for("help_clean_search"@),
        "  "@ + c[7] + "    "@ + i18n.text_for("help_clean_file"@),
        "  "@ + c[8] + "     "@ + i18n.text_for("help_clean_all"@),
        Seq::<char>::empty(),
        i18n.text_for("help_label_options"@),
        "  -h, --help  Print help"@,
    ]
}

/// The lines of the help page for `run`; `c` are the names of the
/// subcommands and modes as shown (see `help_names`).
pub open spec fn help_run(i18n: I18n, c: Seq<Seq<char>>) -> Seq<Seq<char>> {
    seq![
        i18n.text_for("help_run"@),
        Seq::<char>::empty(),
        i18n.text_for("help_label_usage"@) + " dt run <COMMAND>"@,
        Seq::<char>::empty(),
        i18n.text_for("help_label_arguments"@),
        "  <COMMAND>  "@ + i18n.text_for("help_run_command"@),
        Seq::<char>::empty(),
        i18n.text_for("help_label_options"@),
        "  -d, --diff-code <CODE>  "@ + i18n.text_for("help_run_diff_code"@),
        "  -h, --help  Print help"@,
        Seq::<char>::empty(),
        i18n.text_for("help_pipeline_tip"@),
    ]
}

/// The lines of the help page for `diff`; `c` are the names of the
/// subcommands and modes as shown (see `help_names`).
pub open spec fn help_diff(i18n: I18n, c: Seq<Seq<char>>) -> Seq<Seq<char>> {
    seq![
        i18n.text_for("help_diff"@),
        Seq::<char>::empty(),
        i18n.text_for("help_label_usage"@) + " dt diff [OPTIONS] [COMMAND]"@,
        Seq::<char>::empty(),
        i18n.text_for("help_label_arguments"@),
        "  <COMMAND>  "@ + i18n.text_for("help_diff_command"@),
        Seq::<char>::empty(),
        i18n.text_for("help_label_options"@),
        "      --max-shown <MAX_SHOWN>  "@ + i18n.text_for("help_diff_max_shown"@),
        "      --linewise               "@ + i18n.text_for("help_diff_linewise"@),
        "  -h, --help                   Print help"@,
        Seq::<char>::empty(),
        i18n.text_for("help_pipeline_tip"@),
    ]
}

/// The lines of the help page for `ls`; `c` are the names of the
/// subcommands and modes as shown (see `help_names`).
pub open spec fn help_ls(i18n: I18n, c: Seq<Seq<char>>) -> Seq<Seq<char>> {
    seq![
        i18n.text_for("help_ls"@),
        Seq::<char>::empty(),
        i18n.text_for("help_label_usage"@) + " dt ls [QUERY] [--json]"@,
        Seq::<char>::empty(),
        i18n.text_for("help_label_arguments"@),
        "  [QUERY]  "@ + i18n.text_for("help_ls_query"@),
        Seq::<char>::empty(),
        i18n.text_for("help_label_options"@),
        "      --json  "@ + i18n.text_for("help_ls_json"@),
        "  -h, --help  Print help"@,
    ]
}

/// The lines of the help page for `clean`; `c` are the names of the
/// subcommands and modes as shown (see `help_names`).
pub open spec fn help_clean(i18n: I18n, c: Seq<Seq<char>>) -> Seq<Seq<char>> {
    seq![
        i18n.text_for("help_clean"@),
        Seq::<char>::empty(),
        "Usage: dt clean <COMMAND>"@,
        Seq::<char>::empty(),
        "Commands:"@,
        "  "@ + c[6] + "  "@ + i18n.text_for("help_clean_search"@),
        "  "@ + c[7] + "    "@ + i18n.text_for("help_clean_file"@),
        "  "@ + c[8] + "     "@ + i18n.text_for("help_clean_all"@),
        Seq::<char>::empty(),
        "Options:"@,
        "  -h, --help  Print help"@,
    ]
}

/// The lines of the help page for an unknown subcommand; `c` are the names of the
/// subcommands and modes as shown (see `help_names`).
pub open spec fn help_unknown(i18n: I18n, c: Seq<Seq<char>>) -> Seq<Seq<char>> {
    seq![
        i18n.text_for("help_about"@),
        Seq::<char>::empty(),
        i18n.text_for("help_label_usage"@) + " dt <COMMAND>"@,
        Seq::<char>::empty(),
        i18n.text_for("help_label_commands"@),
        "  "@ + c[0] + "    "@ + i18n.text_for("help_run"@),
        "  "@ + c[1] + "   "@ + i18n.text_for("help_diff"@),
        "  "@ + c[3] + "  "@ + i18n.text_for("help_clean"@),
        "  "@ + c[4] + "   "@ + i18n.text_for("help_parse"@),
        "  "@ + c[5] + "   Print this message or the help of the given subcommand(s)"@,
        Seq::<char>::empty(),
        i18n.text_for("help_label_options"@),
        "  -h, --help  Print help"@,
    ]
}
/// The lines of a help page; `c` are the names of the subcommands and
/// modes as shown.
pub open spec fn help_lines(page: HelpPage, i18n: I18n, c: Seq<Seq<char>>) -> Seq<Seq<char>> {
    match page {
        HelpPage::Main => help_main(i18n, c),
        HelpPage::CleanSearch => help_clean_search(i18n, c),
        HelpPage::CleanFile => help_clean_file(i18n, c),
        HelpPage::CleanAll => help_clean_all(i18n, c),
        HelpPage::CleanModes => help_clean_modes(i18n, c),
        HelpPage::Run => help_run(i18n, c),
        HelpPage::Diff => help_diff(i18n, c),
        HelpPage::Ls => help_ls(i18n, c),
        HelpPage::Clean => help_clean(i18n, c),
        HelpPage::Unknown => help_unknown(i18n, c),
        HelpPage::Nothing => seq![],
    }
}

/// Appends the message for `key`.
fn msg(r: &mut Vec<String>, i18n: &I18n, key: &str)
    ensures
        views(final(r)@) == views(old(r)@).push(i18n.text_for(key@)),
{
    let ghost before = views(r@);
    let t = i18n.t(key);
    r.push(t);
    assert(views(r@) =~= before.push(i18n.text_for(key@)));
}

/// Appends an empty line.
fn blank(r: &mut Vec<String>)
    ensures
        views(final(r)@) == views(old(r)@).push(Seq::<char>::empty()),
{
    let ghost before = views(r@);
    r.push(String::new());
    assert(views(r@) =~= before.push(Seq::<char>::empty()));
}

/// Appends a fixed line.
fn lit(r: &mut Vec<String>, text: &str)
    ensures
        views(final(r)@) == views(old(r)@).push(text@),
{
    let ghost before = views(r@);
    let mut s = String::new();
    push_str(&mut s, text);
    r.push(s);
    assert(views(r@) =~= before.push(text@));
}

/// Appends the message for `key` followed by `text`.
fn msg_lit(r: &mut Vec<String>, i18n: &I18n, key: &str, text: &str)
    ensures
        views(final(r)@) == views(old(r)@).push(i18n.text_for(key@) + text@),
{
    let ghost before = views(r@);
    let mut s = i18n.t(key);
    push_str(&mut s, text);
    r.push(s);
    assert(views(r@) =~= before.push(i18n.text_for(key@) + text@));
}

/// Appends `text` followed by the message for `key`.
fn lit_msg(r: &mut Vec<String>, text: &str, i18n: &I18n, key: &str)
    ensures
        views(final(r)@) == views(old(r)@).push(text@ + i18n.text_for(key@)),
{
    let ghost before = views(r@);
    let mut s = String::new();
    push_str(&mut s, text);
    let t = i18n.t(key);
    push_str(&mut s, t.as_str());
    r.push(s);
    assert(views(r@) =~= before.push(text@ + i18n.text_for(key@)));
}

/// Appends an entry of a list: two spaces, a name, padding, and the
/// message for `key`.
fn entry(r: &mut Vec<String>, name: &str, pad: &str, i18n: &I18n, key: &str)
    ensures
        views(final(r)@) == views(old(r)@).push("  "@ + name@ + pad@ + i18n.text_for(key@)),
{
    let ghost before = views(r@);
    let mut s = String::new();
    push_str(&mut s, "  ");
    push_str(&mut s, name);
    push_str(&mut s, pad);
    let t = i18n.t(key);
    push_str(&mut s, t.as_str());
    r.push(s);
    assert(views(r@) =~= before.push("  "@ + name@ + pad@ + i18n.text_for(key@)));
}

/// Appends two spaces, a name and a fixed text.
fn name_lit(r: &mut Vec<String>, name: &str, text: &str)
    ensures
        views(final(r)@) == views(old(r)@).push("  "@ + name@ + text@),
{
    let ghost before = views(r@);
    let mut s = String::new();
    push_str(&mut s, "  ");
    push_str(&mut s, name);
    push_str(&mut s, text);
    r.push(s);
    assert(views(r@) =~= before.push("  "@ + name@ + text@));
}

/// Appends the message for `key` with its placeholder filled by the
/// message for `arg`.
fn tip(r: &mut Vec<String>, i18n: &I18n, key: &str, arg: &str)
    ensures
        views(final(r)@) == views(old(r)@).push(fill(i18n.text_for(key@), seq![i18n.text_for(arg@)])),
{
    let ghost before = views(r@);
    let a = i18n.t(arg);
    let mut args: Vec<&str> = Vec::new();
    args.push(a.as_str());
    assert(args@.map_values(|x: &str| x@) =~= seq![a@]);
    let t = i18n.t_format(key, args.as_slice());
    r.push(t);
    assert(views(r@) =~= before.push(fill(i18n.text_for(key@), seq![i18n.text_for(arg@)])));
}

/// The lines joined, each ended by a newline.
fn join_lines(lines: &Vec<String>) -> (r: String)
    ensures
        r@ == joined(views(lines@)),
{
    let mut out = String::new();
    let mut i: usize = 0;
    while i < lines.len()
        invariant
            i <= lines@.len(),
            out@ == joined(views(lines@).take(i as int)),
        decreases lines@.len() - i,
    {
        push_str(&mut out, lines[i].as_str());
        push_str(&mut out, "\n");
        proof {
            reveal_strlit("\n");
            let v = views(lines@);
            assert(v.take(i + 1).drop_last() =~= v.take(i as int));
            assert(v.take(i + 1).last() == lines@[i as int]@);
        }
        i += 1;
    }
    assert(views(lines@).take(i as int) =~= views(lines@));
    out
}

/// The lines of the help page for the overview of all subcommands.
fn lines_main(i18n: &I18n, c: &Vec<String>) -> (r: Vec<String>)
    requires
        c@.len() == 9,
    ensures
        views(r@) == help_main(*i18n, views(c@)),
{
    let mut r: Vec<String> = Vec::new();
    msg(&mut r, i18n, "help_about");
    blank(&mut r);
    msg_lit(&mut r, i18n, "help_label_usage", " dt <COMMAND>");
    blank(&mut r);
    msg(&mut r, i18n, "help_label_commands");
    entry(&mut r, c[0].as_str(), "    ", i18n, "help_run");
    entry(&mut r, c[1].as_str(), "   ", i18n, "help_diff");
    entry(&mut r, c[2].as_str(), "     ", i18n, "help_ls");
    entry(&mut r, c[3].as_str(), "  ", i18n, "help_clean");
    entry(&mut r, c[4].as_str(), "   ", i18n, "help_parse");
    name_lit(&mut r, c[5].as_str(), "   Print this message or the help of the given subcommand(s)");
    tip(&mut r, i18n, "help_tip_run_diff_code", "help_run_diff_code");
    msg(&mut r, i18n, "help_pipeline_tip");
    msg(&mut r, i18n, "help_subcommand_more");
    blank(&mut r);
    msg(&mut r, i18n, "help_label_options");
    lit(&mut r, "  -h, --help           Print help");
    lit(&mut r, "  -v, -V, --version    Print version info");
    lit(&mut r, "      --data-dir <DIR> Override data directory (default: ~/.dt)");
    blank(&mut r);
    msg(&mut r, i18n, "help_config_section");
    lit_msg(&mut r, "  - ", i18n, "help_config_tui_mode");
    lit_msg(&mut r, "  - ", i18n, "help_config_alt_screen");
    assert(views(r@) =~= help_main(*i18n, views(c@)));
    r
}

/// The lines of the help page for `clean search`.
fn lines_clean_search(i18n: &I18n, c: &Vec<String>) -> (r: Vec<String>)
    requires
        c@.len() == 9,
    ensures
        views(r@) == help_clean_search(*i18n, views(c@)),
{
    let mut r: Vec<String> = Vec::new();
    msg(&mut r, i18n, "help_clean_search");
    blank(&mut r);
    msg_lit(&mut r, i18n, "help_label_usage", " dt clean search [QUERY]");
    blank(&mut r);
    msg(&mut r, i18n, "help_label_arguments");
    lit_msg(&mut r, "  [QUERY]  ", i18n, "help_clean_search_arg");
    blank(&mut r);
    msg(&mut r, i18n, "help_label_options");
    lit_msg(&mut r, "      --dry-run  ", i18n, "help_clean_dry_run");
    lit(&mut r, "  -h, --help  Print help");
    assert(views(r@) =~= help_clean_search(*i18n, views(c@)));
    r
}

/// The lines of the help page for `clean file`.
fn lines_clean_file(i18n: &I18n, c: &Vec<String>) -> (r: Vec<String>)
    requires
        c@.len() == 9,
    ensures
        views(r@) == help_clean_file(*i18n, views(c@)),
{
    let mut r: Vec<String> = Vec::new();
    msg(&mut r, i18n, "help_clean_file");
    blank(&mut r);
    msg_lit(&mut r, i18n, "help_label_usage", " dt clean file [FILE]");
    blank(&mut r);
    msg(&mut r, i18n, "help_label_arguments");
    lit_msg(&mut r, "  [FILE]  ", i18n, "help_clean_file_arg");
    blank(&mut r);
    msg(&mut r, i18n, "help_label_options");
    lit_msg(&mut r, "      --dry-run  ", i18n, "help_clean_dry_run");
    lit(&mut r, "  -h, --help  Print help");
    assert(views(r@) =~= help_clean_file(*i18n, views(c@)));
    r
}

/// The lines of the help page for `clean all`.
fn lines_clean_all(i18n: &I18n, c: &Vec<String>) -> (r: Vec<String>)
    requires
        c@.len() == 9,
    ensures
        views(r@) == help_clean_all(*i18n, views(c@)),
{
    let mut r: Vec<String> = Vec::new();
    msg(&mut r, i18n, "help_clean_all");
    blank(&mut r);
    msg_lit(&mut r, i18n, "help_label_usage", " dt clean all");
    blank(&mut r);
    msg(&mut r, i18n, "help_label_options");
    lit(&mut r, "  -h, --help  Print help");
    assert(views(r@) =~= help_clean_all(*i18n, views(c@)));
    r
}

/// The lines of the help page for `clean` with an unknown mode.
fn lines_clean_modes(i18n: &I18n, c: &Vec<String>) -> (r: Vec<String>)
    requires
        c@.len() == 9,
    ensures
        views(r@) == help_clean_modes(*i18n, views(c@)),
{
    let mut r: Vec<String> = Vec::new();
    msg(&mut r, i18n, "help_clean");
    blank(&mut r);
    msg_lit(&mut r, i18n, "help_label_usage", " dt clean <COMMAND>");
    blank(&mut r);
    msg(&mut r, i18n, "help_label_commands");
    entry(&mut r, c[6].as_str(), "  ", i18n, "help_clean_search");
    entry(&mut r, c[7].as_str(), "    ", i18n, "help_clean_file");
    entry(&mut r, c[8].as_str(), "     ", i18n, "help_clean_all");
    blank(&mut r);
    msg(&mut r, i18n, "help_label_options");
    lit(&mut r, "  -h, --help  Print help");
    assert(views(r@) =~= help_clean_modes(*i18n, views(c@)));
    r
}

/// The lines of the help page for `run`.
fn lines_run(i18n: &I18n, c: &Vec<String>) -> (r: Vec<String>)
    requires
        c@.len() == 9,
    ensures
        views(r@) == help_run(*i18n, views(c@)),
{
    let mut r: Vec<String> = Vec::new();
    msg(&mut r, i18n, "help_run");
    blank(&mut r);
    msg_lit(&mut r, i18n, "help_label_usage", " dt run <COMMAND>");
    blank(&mut r);
    msg(&mut r, i18n, "help_label_arguments");
    lit_msg(&mut r, "  <COMMAND>  ", i18n, "help_run_command");
    blank(&mut r);
    msg(&mut r, i18n, "help_label_options");
    lit_msg(&mut r, "  -d, --diff-code <CODE>  ", i18n, "help_run_diff_code");
    lit(&mut r, "  -h, --help  Print help");
    blank(&mut r);
    msg(&mut r, i18n, "help_pipeline_tip");
    assert(views(r@) =~= help_run(*i18n, views(c@)));
    r
}

/// The lines of the help page for `diff`.
fn lines_diff(i18n: &I18n, c: &Vec<String>) -> (r: Vec<String>)
    requires
        c@.len() == 9,
    ensures
        views(r@) == help_diff(*i18n, views(c@)),
{
    let mut r: Vec<String> = Vec::new();
    msg(&mut r, i18n, "help_diff");
    blank(&mut r);
    msg_lit(&mut r, i18n, "help_label_usage", " dt diff [OPTIONS] [COMMAND]");
    blank(&mut r);
    msg(&mut r, i18n, "help_label_arguments");
    lit_msg(&mut r, "  <COMMAND>  ", i18n, "help_diff_command");
    blank(&mut r);
    msg(&mut r, i18n, "help_label_options");
    lit_msg(&mut r, "      --max-shown <MAX_SHOWN>  ", i18n, "help_diff_max_shown");
    lit_msg(&mut r, "      --linewise               ", i18n, "help_diff_linewise");
    lit(&mut r, "  -h, --help                   Print help");
    blank(&mut r);
    msg(&mut r, i18n, "help_pipeline_tip");
    assert(views(r@) =~= help_diff(*i18n, views(c@)));
    r
}

/// The lines of the help page for `ls`.
fn lines_ls(i18n: &I18n, c: &Vec<String>) -> (r: Vec<String>)
    requires
        c@.len() == 9,
    ensures
        views(r@) == help_ls(*i18n, views(c@)),
{
    let mut r: Vec<String> = Vec::new();
    msg(&mut r, i18n, "help_ls");
    blank(&mut r);
    msg_lit(&mut r, i18n, "help_label_usage", " dt ls [QUERY] [--json]");
    blank(&mut r);
    msg(&mut r, i18n, "help_label_arguments");
    lit_msg(&mut r, "  [QUERY]  ", i18n, "help_ls_query");
    blank(&mut r);
    msg(&mut r, i18n, "help_label_options");
    lit_msg(&mut r, "      --json  ", i18n, "help_ls_json");
    lit(&mut r, "  -h, --help  Print help");
    assert(views(r@) =~= help_ls(*i18n, views(c@)));
    r
}

/// The lines of the help page for `clean`.
fn lines_clean(i18n: &I18n, c: &Vec<String>) -> (r: Vec<String>)
    requires
        c@.len() == 9,
    ensures
        views(r@) == help_clean(*i18n, views(c@)),
{
    let mut r: Vec<String> = Vec::new();
    msg(&mut r, i18n, "help_clean");
    blank(&mut r);
    lit(&mut r, "Usage: dt clean <COMMAND>");
    blank(&mut r);
    lit(&mut r, "Commands:");
    entry(&mut r, c[6].as_str(), "  ", i18n, "help_clean_search");
    entry(&mut r, c[7].as_str(), "    ", i18n, "help_clean_file");
    entry(&mut r, c[8].as_str(), "     ", i18n, "help_clean_all");
    blank(&mut r);
    lit(&mut r, "Options:");
    lit(&mut r, "  -h, --help  Print help");
    assert(views(r@) =~= help_clean(*i18n, views(c@)));
    r
}

/// The lines of the help page for an unknown subcommand.
fn lines_unknown(i18n: &I18n, c: &Vec<String>) -> (r: Vec<String>)
    requires
        c@.len() == 9,
    ensures
        views(r@) == help_unknown(*i18n, views(c@)),
{
    let mut r: Vec<String> = Vec::new();
    msg(&mut r, i18n, "help_about");
    blank(&mut r);
    msg_lit(&mut r, i18n, "help_label_usage", " dt <COMMAND>");
    blank(&mut r);
    msg(&mut r, i18n, "help_label_commands");
    entry(&mut r, c[0].as_str(), "    ", i18n, "help_run");
    entry(&mut r, c[1].as_str(), "   ", i18n, "help_diff");
    entry(&mut r, c[3].as_str(), "  ", i18n, "help_clean");
    entry(&mut r, c[4].as_str(), "   ", i18n, "help_parse");
    name_lit(&mut r, c[5].as_str(), "   Print this message or the help of the given subcommand(s)");
    blank(&mut r);
    msg(&mut r, i18n, "help_label_options");
    lit(&mut r, "  -h, --help  Print help");
    assert(views(r@) =~= help_unknown(*i18n, views(c@)));
    r
}
/// The text of a help page: its lines, each ended by a newline, with the
/// subcommand names plain or colored green (as `colored` decides for the
/// terminal); nothing for `HelpPage::Nothing`.
pub fn help_text(page: HelpPage, i18n: &I18n) -> (r: String)
    ensures
        exists|c: Seq<Seq<char>>|
            #![trigger help_lines(page, *i18n, c)]
            names_shown(c) && r@ == joined(help_lines(page, *i18n, c)),
{
    let n0 = paint_green("run");
    let n1 = paint_green("diff");
    let n2 = paint_green("ls");
    let n3 = paint_green("clean");
    let n4 = paint_green("parse");
    let n5 = paint_green("help");
    let n6 = paint_green("search");
    let n7 = paint_green("file");
    let n8 = paint_green("all");
    let ghost cv = seq![n0@, n1@, n2@, n3@, n4@, n5@, n6@, n7@, n8@];
    let mut c: Vec<String> = Vec::new();
    c.push(n0);
    c.push(n1);
    c.push(n2);
    c.push(n3);
    c.push(n4);
    c.push(n5);
    c.push(n6);
    c.push(n7);
    c.push(n8);
    assert(views(c@) =~= cv);
    assert(names_shown(cv)) by {
        assert forall|i: int| 0 <= i < 9 implies shown(#[trigger] cv[i], help_names()[i], green()) by {
            if i == 0 {
            } else if i == 1 {
            } else if i == 2 {
            } else if i == 3 {
            } else if i == 4 {
            } else if i == 5 {
            } else if i == 6 {
            } else if i == 7 {
            } else {
            }
        }
    }
    let lines = match page {
        HelpPage::Main => lines_main(i18n, &c),
        HelpPage::CleanSearch => lines_clean_search(i18n, &c),
        HelpPage::CleanFile => lines_clean_file(i18n, &c),
        HelpPage::CleanAll => lines_clean_all(i18n, &c),
        HelpPage::CleanModes => lines_clean_modes(i18n, &c),
        HelpPage::Run => lines_run(i18n, &c),
        HelpPage::Diff => lines_diff(i18n, &c),
        HelpPage::Ls => lines_ls(i18n, &c),
        HelpPage::Clean => lines_clean(i18n, &c),
        HelpPage::Unknown => lines_unknown(i18n, &c),
        HelpPage::Nothing => Vec::new(),
    };
    assert(views(lines@) == help_lines(page, *i18n, cv)) by {
        if page == HelpPage::Nothing {
            assert(views(lines@) =~= Seq::<Seq<char>>::empty());
        }
    }
    join_lines(&lines)
}

} // verus!
