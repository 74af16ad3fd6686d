//! The texts of the interactive run selection: each list line, the
//! preview's title and body, the footer, and how far the preview may
//! scroll. Laying them out on the terminal is done by the caller.

use vstd::prelude::*;
use crate::differ::{code_of, Differ};
use crate::i18n::{fill, I18n};
use crate::preview::preview_text;
use crate::storage::{CommandExecution, ts_lt};
use crate::text::{dec_digits, decimal, owned, push_char, push_str, same_text};
use crate::textdiff::{linewise_entries, plain_lines, text_changes};
use crate::tui::run_with_id;
use crate::groups::CommandGroup;

verus! {

/// A run as the lists show it: its number, its short code when it has
/// one, and its time.
pub open spec fn run_line_of(vis: int, e: CommandExecution, date: Seq<char>, i18n: I18n) -> Seq<char> {
    if e.record.short_code is Some {
        dec_digits((vis + 1) as nat) + ": "@ + i18n.text_for("short_code_label"@) + ":"@
            + e.record.short_code->0@ + " "@ + i18n.text_for("time_label"@) + ": "@ + date
    } else {
        dec_digits((vis + 1) as nat) + ": "@ + i18n.text_for("time_label"@) + ": "@ + date
    }
}

/// A line of the interactive list: a check mark for a chosen run, then the
/// run as the lists show it.
pub open spec fn list_line_of(vis: int, e: CommandExecution, chosen: bool, date: Seq<char>, i18n: I18n) -> Seq<char> {
    (if chosen {
        "✓ "@
    } else {
        "  "@
    }) + run_line_of(vis, e, date, i18n)
}

/// A command group as the lists show it: number, command, number of runs
/// and latest time.
pub open spec fn group_line_of(num: int, g: CommandGroup, date: Seq<char>, i18n: I18n) -> Seq<char> {
    dec_digits(num as nat) + ": "@ + g.command@ + " ("@ + i18n.text_for("count_label"@) + ": "@ + dec_digits(
        g.count as nat,
    ) + ", "@ + i18n.text_for("latest_label"@) + ": "@ + date + ")"@
}

/// The positions of the pair to preview: with two chosen ids that both
/// name runs, the first run with each id, the earlier first (keeping their
/// order when equally old).
pub open spec fn pair_of(chosen: Seq<Seq<char>>, execs: Seq<CommandExecution>) -> Option<(int, int)> {
    if chosen.len() == 2 && run_with_id(execs, chosen[0], 0) < execs.len() && run_with_id(execs, chosen[1], 0)
        < execs.len() {
        let a = run_with_id(execs, chosen[0], 0);
        let b = run_with_id(execs, chosen[1], 0);
        if ts_lt(execs[b].record.timestamp, execs[a].record.timestamp) {
            Some((b, a))
        } else {
            Some((a, b))
        }
    } else {
        None
    }
}

/// The preview of the differences of one output: a note when the same,
/// else the differences line by line or aligned.
pub open spec fn diff_section(old: Seq<char>, new: Seq<char>, linewise: bool) -> Seq<char> {
    if linewise {
        plain_lines(linewise_entries(old, new), seq!['\n'])
    } else {
        plain_lines(text_changes(old, new), Seq::<char>::empty())
    }
}

/// The divider between the standard output and standard error sections.
pub open spec fn stderr_divider() -> Seq<char> {
    "\n── stderr ─────────────────────────\n"@
}

/// The preview of a chosen pair: title and body.
pub open spec fn pair_preview(e: CommandExecution, l: CommandExecution, linewise: bool, i18n: I18n) -> (Seq<
    char,
>, Seq<char>) {
    let so_old = preview_text(e.stdout@);
    let so_new = preview_text(l.stdout@);
    let se_old = preview_text(e.stderr@);
    let se_new = preview_text(l.stderr@);
    let out = if so_old == so_new {
        i18n.text_for("output_identical"@) + seq!['\n']
    } else {
        diff_section(so_old, so_new, linewise)
    };
    if se_old.len() > 0 || se_new.len() > 0 {
        (
            i18n.text_for("preview_diff_stdout_header"@) + "  |  "@ + i18n.text_for("preview_diff_stderr_header"@),
            out + stderr_divider() + if se_old == se_new {
                i18n.text_for("output_identical"@)
            } else {
                diff_section(se_old, se_new, linewise)
            },
        )
    } else {
        (i18n.text_for("preview_diff_stdout_header"@), out)
    }
}

/// Where an output is stored, as the preview says it.
pub open spec fn path_note(p: Option<String>, i18n: I18n) -> Seq<char> {
    match p {
        Some(x) => fill(i18n.text_for("preview_path_label"@), seq![x@]),
        None => i18n.text_for("preview_path_missing"@),
    }
}

/// The preview of one run: title and body (its outputs with where they are
/// stored; standard error only when there is some).
pub open spec fn single_preview(e: CommandExecution, i18n: I18n) -> (Seq<char>, Seq<char>) {
    let so = preview_text(e.stdout@);
    let se = preview_text(e.stderr@);
    let first = i18n.text_for("stdout"@) + " "@ + path_note(e.stdout_path, i18n) + seq!['\n'] + if so.len() == 0 {
        i18n.text_for("preview_empty"@)
    } else {
        so
    };
    if se.len() > 0 {
        (
            i18n.text_for("preview_stdout_header"@) + "  |  "@ + i18n.text_for("preview_stderr_header"@),
            first + seq!['\n'] + seq!['\n'] + i18n.text_for("stderr"@) + " "@ + path_note(e.stderr_path, i18n)
                + seq!['\n'] + se,
        )
    } else {
        (i18n.text_for("preview_stdout_header"@), first)
    }
}

/// The preview of a chosen pair's standard error alone: title and body.
pub open spec fn pair_stderr_preview(e: CommandExecution, l: CommandExecution, linewise: bool, i18n: I18n) -> (Seq<
    char,
>, Seq<char>) {
    let se_old = preview_text(e.stderr@);
    let se_new = preview_text(l.stderr@);
    (
        i18n.text_for("preview_diff_stderr_header"@),
        if se_old == se_new {
            i18n.text_for("output_identical"@)
        } else {
            diff_section(se_old, se_new, linewise)
        },
    )
}

/// The preview of one run's standard error alone: title and body (where
/// it is stored, then the output or a note that it is empty).
pub open spec fn single_stderr_preview(e: CommandExecution, i18n: I18n) -> (Seq<char>, Seq<char>) {
    let se = preview_text(e.stderr@);
    (
        i18n.text_for("preview_stderr_header"@),
        i18n.text_for("stderr"@) + " "@ + path_note(e.stderr_path, i18n) + seq!['\n'] + if se.len() == 0 {
            i18n.text_for("preview_empty"@)
        } else {
            se
        },
    )
}

/// The preview panel: the chosen pair's differences, else the run under
/// the cursor, else a note; with `stderr`, of standard error alone, else
/// of standard output (followed by standard error when there is some).
pub open spec fn panel_of(
    execs: Seq<CommandExecution>,
    pair: Option<(int, int)>,
    focus: Option<int>,
    linewise: bool,
    stderr: bool,
    i18n: I18n,
) -> (Seq<char>, Seq<char>) {
    match pair {
        Some(p) => if stderr {
            pair_stderr_preview(execs[p.0], execs[p.1], linewise, i18n)
        } else {
            pair_preview(execs[p.0], execs[p.1], linewise, i18n)
        },
        None => match focus {
            Some(i) => if stderr {
                single_stderr_preview(execs[i], i18n)
            } else {
                single_preview(execs[i], i18n)
            },
            None => (
                if stderr {
                    i18n.text_for("preview_stderr_header"@)
                } else {
                    i18n.text_for("preview_stdout_header"@)
                },
                i18n.text_for("preview_no_selection"@),
            ),
        },
    }
}

/// The footer status for the number of chosen runs.
pub open spec fn status_key(chosen: int) -> Seq<char> {
    if chosen == 0 {
        "status_select_first"@
    } else if chosen == 1 {
        "status_select_second"@
    } else {
        "selection_complete"@
    }
}

impl Differ {
    /// A run as the lists show it (see `run_line_of`); `vis` is its
    /// position from 0.
    pub fn run_line(vis: usize, e: &CommandExecution, date: &str, i18n: &I18n) -> (r: String)
        requires
            vis < usize::MAX,
        ensures
            r@ == run_line_of(vis as int, *e, date@, *i18n),
    {
        let mut s = decimal((vis + 1) as u64);
        push_str(&mut s, ": ");
        match &e.record.short_code {
            Some(code) => {
                let l = i18n.t("short_code_label");
                push_str(&mut s, l.as_str());
                push_str(&mut s, ":");
                push_str(&mut s, code.as_str());
                push_str(&mut s, " ");
            },
            None => {},
        }
        let t = i18n.t("time_label");
        push_str(&mut s, t.as_str());
        push_str(&mut s, ": ");
        push_str(&mut s, date);
        proof {
            if e.record.short_code is Some {
                assert(s@ =~= run_line_of(vis as int, *e, date@, *i18n));
            } else {
                assert(s@ =~= run_line_of(vis as int, *e, date@, *i18n));
            }
        }
        s
    }

    /// A line of the interactive list (see `list_line_of`).
    pub fn list_line(vis: usize, e: &CommandExecution, chosen: bool, date: &str, i18n: &I18n) -> (r: String)
        requires
            vis < usize::MAX,
        ensures
            r@ == list_line_of(vis as int, *e, chosen, date@, *i18n),
    {
        let mut s = if chosen {
            owned("✓ ")
        } else {
            owned("  ")
        };
        let line = Self::run_line(vis, e, date, i18n);
        push_str(&mut s, line.as_str());
        s
    }

    /// A command group as the lists show it (see `group_line_of`); `num` is
    /// the number shown.
    pub fn group_line(num: usize, g: &CommandGroup, date: &str, i18n: &I18n) -> (r: String)
        ensures
            r@ == group_line_of(num as int, *g, date@, *i18n),
    {
        let mut s = decimal(num as u64);
        push_str(&mut s, ": ");
        push_str(&mut s, g.command.as_str());
        push_str(&mut s, " (");
        let c = i18n.t("count_label");
        push_str(&mut s, c.as_str());
        push_str(&mut s, ": ");
        let n = decimal(g.count as u64);
        push_str(&mut s, n.as_str());
        push_str(&mut s, ", ");
        let l = i18n.t("latest_label");
        push_str(&mut s, l.as_str());
        push_str(&mut s, ": ");
        push_str(&mut s, date);
        push_str(&mut s, ")");
        s
    }

    /// The positions of the pair to preview (see `pair_of`).
    pub fn preview_pair(chosen: &Vec<String>, execs: &Vec<CommandExecution>) -> (r: Option<(usize, usize)>)
        ensures
            match r {
                Some(p) => pair_of(chosen@.map_values(|s: String| s@), execs@) == Some((p.0 as int, p.1 as int)),
                None => pair_of(chosen@.map_values(|s: String| s@), execs@) is None,
            },
    {
        let ghost ch = chosen@.map_values(|s: String| s@);
        if chosen.len() != 2 {
            return None;
        }
        let a = Self::first_with_id(execs, chosen[0].as_str());
        let b = Self::first_with_id(execs, chosen[1].as_str());
        assert(ch[0] == chosen@[0]@ && ch[1] == chosen@[1]@);
        if a < execs.len() && b < execs.len() {
            if execs[b].record.timestamp.is_before(&execs[a].record.timestamp) {
                Some((b, a))
            } else {
                Some((a, b))
            }
        } else {
            None
        }
    }

    /// The first position of a run with id `id` (the length when none has).
    fn first_with_id(execs: &Vec<CommandExecution>, id: &str) -> (r: usize)
        ensures
            r == run_with_id(execs@, id@, 0),
    {
        let mut i: usize = 0;
        while i < execs.len()
            invariant
                i <= execs@.len(),
                run_with_id(execs@, id@, 0) == run_with_id(execs@, id@, i as int),
            decreases execs@.len() - i,
        {
            if same_text(execs[i].record.record_id.as_str(), id) {
                return i;
            }
            i += 1;
        }
        i
    }

    /// The differences of one output for the preview (see `diff_section`).
    fn section(old: &str, new: &str, linewise: bool) -> (r: String)
        ensures
            r@ == diff_section(old@, new@, linewise),
    {
        if linewise {
            Self::diff_preview_text_linewise(old, new)
        } else {
            Self::diff_preview_text(old, new)
        }
    }

    /// The preview of a chosen pair (see `pair_preview`).
    fn pair_panel(e: &CommandExecution, l: &CommandExecution, linewise: bool, i18n: &I18n) -> (r: (String, String))
        ensures
            (r.0@, r.1@) == pair_preview(*e, *l, linewise, *i18n),
    {
        let so_old = Self::sanitize_for_preview(e.stdout.as_str());
        let so_new = Self::sanitize_for_preview(l.stdout.as_str());
        let se_old = Self::sanitize_for_preview(e.stderr.as_str());
        let se_new = Self::sanitize_for_preview(l.stderr.as_str());
        let mut out = String::new();
        if same_text(so_old.as_str(), so_new.as_str()) {
            let t = i18n.t("output_identical");
            push_str(&mut out, t.as_str());
            push_char(&mut out, '\n');
        } else {
            let d = Self::section(so_old.as_str(), so_new.as_str(), linewise);
            push_str(&mut out, d.as_str());
        }
        let ghost first = out@;
        if !se_old.as_str().is_empty() || !se_new.as_str().is_empty() {
            let mut title = i18n.t("preview_diff_stdout_header");
            push_str(&mut title, "  |  ");
            let h = i18n.t("preview_diff_stderr_header");
            push_str(&mut title, h.as_str());
            push_str(&mut out, "\n── stderr ─────────────────────────\n");
            if same_text(se_old.as_str(), se_new.as_str()) {
                let t = i18n.t("output_identical");
                push_str(&mut out, t.as_str());
            } else {
                let d = Self::section(se_old.as_str(), se_new.as_str(), linewise);
                push_str(&mut out, d.as_str());
            }
            proof {
                assert(first == if preview_text(e.stdout@) == preview_text(l.stdout@) {
                    i18n.text_for("output_identical"@) + seq!['\n']
                } else {
                    diff_section(preview_text(e.stdout@), preview_text(l.stdout@), linewise)
                }) by {
                    if preview_text(e.stdout@) == preview_text(l.stdout@) {
                        assert(first =~= i18n.text_for("output_identical"@) + seq!['\n']);
                    } else {
                        assert(first =~= Seq::<char>::empty() + diff_section(preview_text(e.stdout@), preview_text(l.stdout@), linewise));
                    }
                }
                assert(out@ =~= pair_preview(*e, *l, linewise, *i18n).1);
                assert(title@ =~= pair_preview(*e, *l, linewise, *i18n).0);
            }
            (title, out)
        } else {
            let title = i18n.t("preview_diff_stdout_header");
            proof {
                if preview_text(e.stdout@) == preview_text(l.stdout@) {
                    assert(out@ =~= i18n.text_for("output_identical"@) + seq!['\n']);
                } else {
                    assert(out@ =~= Seq::<char>::empty() + diff_section(preview_text(e.stdout@), preview_text(l.stdout@), linewise));
                }
            }
            (title, out)
        }
    }

    /// Where an output is stored, as the preview says it (see `path_note`).
    fn path_text(p: &Option<String>, i18n: &I18n) -> (r: String)
        ensures
            r@ == path_note(*p, *i18n),
    {
        match p {
            Some(x) => {
                let mut args: Vec<&str> = Vec::new();
                args.push(x.as_str());
                let r = i18n.t_format("preview_path_label", args.as_slice());
                assert(args@.map_values(|a: &str| a@) =~= seq![x@]);
                r
            },
            None => i18n.t("preview_path_missing"),
        }
    }

    /// The preview of one run (see `single_preview`).
    fn single_panel(e: &CommandExecution, i18n: &I18n) -> (r: (String, String))
        ensures
            (r.0@, r.1@) == single_preview(*e, *i18n),
    {
        let so = Self::sanitize_for_preview(e.stdout.as_str());
        let se = Self::sanitize_for_preview(e.stderr.as_str());
        let mut body = i18n.t("stdout");
        push_str(&mut body, " ");
        let p1 = Self::path_text(&e.stdout_path, i18n);
        push_str(&mut body, p1.as_str());
        push_char(&mut body, '\n');
        if so.as_str().is_empty() {
            let t = i18n.t("preview_empty");
            push_str(&mut body, t.as_str());
        } else {
            push_str(&mut body, so.as_str());
        }
        let ghost first = body@;
        proof {
            assert(first =~= single_preview_first(*e, *i18n));
        }
        if !se.as_str().is_empty() {
            let mut title = i18n.t("preview_stdout_header");
            push_str(&mut title, "  |  ");
            let h = i18n.t("preview_stderr_header");
            push_str(&mut title, h.as_str());
            push_char(&mut body, '\n');
            push_char(&mut body, '\n');
            let s = i18n.t("stderr");
            push_str(&mut body, s.as_str());
            push_str(&mut body, " ");
            let p2 = Self::path_text(&e.stderr_path, i18n);
            push_str(&mut body, p2.as_str());
            push_char(&mut body, '\n');
            push_str(&mut body, se.as_str());
            proof {
                assert(body@ =~= single_preview(*e, *i18n).1);
                assert(title@ =~= single_preview(*e, *i18n).0);
            }
            (title, body)
        } else {
            (i18n.t("preview_stdout_header"), body)
        }
    }

    /// The preview panel's title and body (see `panel_of`): `pair` are the
    /// positions of the chosen pair, `focus` that of the run under the
    /// cursor.
    pub fn preview_panel(
        execs: &Vec<CommandExecution>,
        pair: Option<(usize, usize)>,
        focus: Option<usize>,
        linewise: bool,
        stderr: bool,
        i18n: &I18n,
    ) -> (r: (String, String))
        requires
            pair matches Some(p) ==> p.0 < execs@.len() && p.1 < execs@.len(),
            focus matches Some(i) ==> i < execs@.len(),
        ensures
            (r.0@, r.1@) == panel_of(
                execs@,
                match pair {
                    Some(p) => Some((p.0 as int, p.1 as int)),
                    None => None,
                },
                match focus {
                    Some(i) => Some(i as int),
                    None => None,
                },
                linewise,
                stderr,
                *i18n,
            ),
    {
        match pair {
            Some((a, b)) => if stderr {
                Self::pair_stderr_panel(&execs[a], &execs[b], linewise, i18n)
            } else {
                Self::pair_panel(&execs[a], &execs[b], linewise, i18n)
            },
            None => match focus {
                Some(i) => if stderr {
                    Self::single_stderr_panel(&execs[i], i18n)
                } else {
                    Self::single_panel(&execs[i], i18n)
                },
                None => {
                    let title = if stderr {
                        i18n.t("preview_stderr_header")
                    } else {
                        i18n.t("preview_stdout_header")
                    };
                    (title, i18n.t("preview_no_selection"))
                },
            },
        }
    }

    /// The preview of a chosen pair's standard error (see
    /// `pair_stderr_preview`).
    fn pair_stderr_panel(e: &CommandExecution, l: &CommandExecution, linewise: bool, i18n: &I18n) -> (r: (
        String,
        String,
    ))
        ensures
            (r.0@, r.1@) == pair_stderr_preview(*e, *l, linewise, *i18n),
    {
        let se_old = Self::sanitize_for_preview(e.stderr.as_str());
        let se_new = Self::sanitize_for_preview(l.stderr.as_str());
        let body = if same_text(se_old.as_str(), se_new.as_str()) {
            i18n.t("output_identical")
        } else {
            Self::section(se_old.as_str(), se_new.as_str(), linewise)
        };
        (i18n.t("preview_diff_stderr_header"), body)
    }

    /// The preview of one run's standard error (see
    /// `single_stderr_preview`).
    fn single_stderr_panel(e: &CommandExecution, i18n: &I18n) -> (r: (String, String))
        ensures
            (r.0@, r.1@) == single_stderr_preview(*e, *i18n),
    {
        let se = Self::sanitize_for_preview(e.stderr.as_str());
        let mut body = i18n.t("stderr");
        push_str(&mut body, " ");
        let p = Self::path_text(&e.stderr_path, i18n);
        push_str(&mut body, p.as_str());
        push_char(&mut body, '\n');
        if se.as_str().is_empty() {
            let t = i18n.t("preview_empty");
            push_str(&mut body, t.as_str());
        } else {
            push_str(&mut body, se.as_str());
        }
        assert(body@ =~= single_stderr_preview(*e, *i18n).1);
        (i18n.t("preview_stderr_header"), body)
    }

    /// The footer status for the number of chosen runs.
    pub fn footer_status(chosen: usize, i18n: &I18n) -> (r: String)
        ensures
            r@ == i18n.text_for(status_key(chosen as int)),
    {
        if chosen == 0 {
            i18n.t("status_select_first")
        } else if chosen == 1 {
            i18n.t("status_select_second")
        } else {
            i18n.t("selection_complete")
        }
    }

    /// The preview scroll kept within the text: at most the rows that do
    /// not fit in `inner_h` visible ones.
    pub fn clamp_preview(total_lines: usize, inner_h: usize, offset: u16) -> (r: u16)
        ensures
            r as int == if offset as int <= (if total_lines >= inner_h { total_lines - inner_h } else { 0 }) {
                offset as int
            } else {
                if total_lines >= inner_h { total_lines - inner_h } else { 0 }
            },
    {
        let max_offset = if total_lines >= inner_h {
            total_lines - inner_h
        } else {
            0
        };
        if (offset as usize) <= max_offset {
            offset
        } else {
            max_offset as u16
        }
    }
}

/// The first part of a run's preview: standard output with where it is
/// stored.
pub open spec fn single_preview_first(e: CommandExecution, i18n: I18n) -> Seq<char> {
    let so = preview_text(e.stdout@);
    i18n.text_for("stdout"@) + " "@ + path_note(e.stdout_path, i18n) + seq!['\n'] + if so.len() == 0 {
        i18n.text_for("preview_empty"@)
    } else {
        so
    }
}

} // verus!
