//! Line differences between two outputs, as plain preview text and as
//! colored terminal text, either aligned by `similar` or compared strictly
//! line by line.

use vstd::prelude::*;
use crate::differ::Differ;
use crate::preview::{split_newlines, split_nl, views};
use crate::text::{chars_of, push_char, push_str, same_text};

verus! {

/// Style code: red.
pub open spec fn red() -> u8 {
    0
}

/// Style code: green.
pub open spec fn green() -> u8 {
    1
}

/// Style code: bold cyan.
pub open spec fn bold_cyan() -> u8 {
    2
}

/// Style code: bold yellow.
pub open spec fn bold_yellow() -> u8 {
    3
}

/// Style code: bold red.
pub open spec fn bold_red() -> u8 {
    4
}

/// Style code: bold green.
pub open spec fn bold_green() -> u8 {
    5
}

/// The text `colored` writes for `s` in a style when coloring is on.
pub uninterp spec fn painted(s: Seq<char>, style: u8) -> Seq<char>;

/// How a text in a style appears: as it is when coloring is off (no
/// terminal, `NO_COLOR`, ...), or painted.
pub open spec fn shown(p: Seq<char>, s: Seq<char>, style: u8) -> bool {
    p == s || p == painted(s, style)
}

/// `s.red().to_string()` with `colored`. Claimed: the text itself when
/// coloring is off, else the named function `painted`; which one depends
/// on the environment and is not stated.
#[verifier::external_body]
pub(crate) fn paint_red(s: &str) -> (r: String)
    ensures
        r@ == s@ || r@ == painted(s@, red()),
{
    colored::Colorize::red(s).to_string()
}

/// `s.green().to_string()` with `colored` (see `paint_red`).
#[verifier::external_body]
pub(crate) fn paint_green(s: &str) -> (r: String)
    ensures
        r@ == s@ || r@ == painted(s@, green()),
{
    colored::Colorize::green(s).to_string()
}

/// `s.bold().cyan().to_string()` with `colored` (see `paint_red`).
#[verifier::external_body]
pub(crate) fn paint_bold_cyan(s: &str) -> (r: String)
    ensures
        r@ == s@ || r@ == painted(s@, bold_cyan()),
{
    colored::Colorize::cyan(colored::Colorize::bold(s)).to_string()
}

/// `s.yellow().bold().to_string()` with `colored` (see `paint_red`).
#[verifier::external_body]
pub(crate) fn paint_bold_yellow(s: &str) -> (r: String)
    ensures
        r@ == s@ || r@ == painted(s@, bold_yellow()),
{
    colored::Colorize::bold(colored::Colorize::yellow(s)).to_string()
}

/// `s.red().bold().to_string()` with `colored` (see `paint_red`).
#[verifier::external_body]
pub(crate) fn paint_bold_red(s: &str) -> (r: String)
    ensures
        r@ == s@ || r@ == painted(s@, bold_red()),
{
    colored::Colorize::bold(colored::Colorize::red(s)).to_string()
}

/// `s.green().bold().to_string()` with `colored` (see `paint_red`).
#[verifier::external_body]
pub(crate) fn paint_bold_green(s: &str) -> (r: String)
    ensures
        r@ == s@ || r@ == painted(s@, bold_green()),
{
    colored::Colorize::bold(colored::Colorize::green(s)).to_string()
}

/// The changes `similar` finds between two texts compared by lines, in
/// order: tag `0` for a removed line, `1` for an added one, `2` for a kept
/// one, with the line's text (its newline included).
pub uninterp spec fn text_changes(old: Seq<char>, new: Seq<char>) -> Seq<(u8, Seq<char>)>;

/// `TextDiff::from_lines(old, new).iter_all_changes()`, each change as its
/// tag and value. Claimed: the list is the named function `text_changes`.
#[verifier::external_body]
fn line_changes(old: &str, new: &str) -> (r: Vec<(u8, String)>)
    ensures
        r@.map_values(|c: (u8, String)| (c.0, c.1@)) == text_changes(old@, new@),
{
    let diff = similar::TextDiff::from_lines(old, new);
    diff.iter_all_changes().map(
        |c| match c.tag() {
            similar::ChangeTag::Delete => (0u8, c.value().to_string()),
            similar::ChangeTag::Insert => (1u8, c.value().to_string()),
            similar::ChangeTag::Equal => (2u8, c.value().to_string()),
        },
    ).collect()
}

/// A change's line as `similar` displays it: a newline is added when the
/// value does not end with one (or with a carriage return).
pub open spec fn displayed(v: Seq<char>) -> Seq<char> {
    if v.len() > 0 && (v.last() == '\n' || v.last() == '\r') {
        v
    } else {
        v.push('\n')
    }
}

/// The mark of a tag: `-` removed, `+` added, a space kept.
pub open spec fn tag_char(t: u8) -> char {
    if t == 0 {
        '-'
    } else if t == 1 {
        '+'
    } else {
        ' '
    }
}

/// The style of a changed line: red removed, green added.
pub open spec fn tag_style(t: u8) -> u8 {
    if t == 0 {
        red()
    } else {
        green()
    }
}

/// Plain lines: mark, space, text, `suffix`, for each entry.
pub open spec fn plain_lines(es: Seq<(u8, Seq<char>)>, suffix: Seq<char>) -> Seq<char>
    decreases es.len(),
{
    if es.len() == 0 {
        seq![]
    } else {
        plain_lines(es.drop_last(), suffix) + seq![tag_char(es.last().0), ' '] + es.last().1 + suffix
    }
}

/// Colored lines: for each entry its mark and text (a kept line as a space
/// and the text, a changed one each shown in the tag's style), then
/// `suffix`.
pub open spec fn colored_lines(ps: Seq<(Seq<char>, Seq<char>)>, suffix: Seq<char>) -> Seq<char>
    decreases ps.len(),
{
    if ps.len() == 0 {
        seq![]
    } else {
        colored_lines(ps.drop_last(), suffix) + ps.last().0 + ps.last().1 + suffix
    }
}

/// `p` is how entry `e` appears in colored text.
pub open spec fn colored_ok(e: (u8, Seq<char>), p: (Seq<char>, Seq<char>)) -> bool {
    if e.0 == 0 || e.0 == 1 {
        shown(p.0, seq![tag_char(e.0)], tag_style(e.0)) && shown(p.1, e.1, tag_style(e.0))
    } else {
        p.0 == seq![' '] && p.1 == e.1
    }
}

/// `out` is the entries as colored lines, each ended by `suffix`.
pub open spec fn colored_text(es: Seq<(u8, Seq<char>)>, suffix: Seq<char>, out: Seq<char>) -> bool {
    exists|ps: Seq<(Seq<char>, Seq<char>)>|
        ps.len() == es.len() && (forall|i: int| 0 <= i < es.len() ==> colored_ok(#[trigger] es[i], ps[i]))
            && out == colored_lines(ps, suffix)
}

/// The changes with each value as `similar` displays it.
pub open spec fn displayed_changes(old: Seq<char>, new: Seq<char>) -> Seq<(u8, Seq<char>)> {
    text_changes(old, new).map_values(|c: (u8, Seq<char>)| (c.0, displayed(c.1)))
}

/// Line `i` of `ls`, if there is one.
pub open spec fn line_at(ls: Seq<Seq<char>>, i: int) -> Option<Seq<char>> {
    if 0 <= i < ls.len() {
        Some(ls[i])
    } else {
        None
    }
}

/// The entries for one row of a line-by-line comparison: an equal pair is
/// kept, a differing pair is removed then added, a line on one side only is
/// removed or added.
pub open spec fn row_entries(o: Option<Seq<char>>, n: Option<Seq<char>>) -> Seq<(u8, Seq<char>)> {
    match (o, n) {
        (Some(a), Some(b)) => if a == b {
            seq![(2u8, a)]
        } else {
            seq![(0u8, a), (1u8, b)]
        },
        (Some(a), None) => seq![(0u8, a)],
        (None, Some(b)) => seq![(1u8, b)],
        (None, None) => seq![],
    }
}

/// The entries of the first `k` rows of a line-by-line comparison.
pub open spec fn rows_entries(old: Seq<Seq<char>>, new: Seq<Seq<char>>, k: int) -> Seq<(u8, Seq<char>)>
    decreases k,
{
    if k <= 0 {
        seq![]
    } else {
        rows_entries(old, new, k - 1) + row_entries(line_at(old, k - 1), line_at(new, k - 1))
    }
}

/// The entries of a line-by-line comparison of two texts split at
/// newlines, over as many rows as the longer side has lines.
pub open spec fn linewise_entries(old: Seq<char>, new: Seq<char>) -> Seq<(u8, Seq<char>)> {
    let o = split_nl(old);
    let n = split_nl(new);
    rows_entries(o, n, if o.len() >= n.len() {
        o.len() as int
    } else {
        n.len() as int
    })
}

/// The changes between two texts as the line-by-line comparison finds
/// them (see `linewise_entries`).
fn linewise_changes(old: &str, new: &str) -> (r: Vec<(u8, String)>)
    ensures
        r@.map_values(|c: (u8, String)| (c.0, c.1@)) == linewise_entries(old@, new@),
{
    let ol = split_newlines(old);
    let nl = split_newlines(new);
    let ghost o = views(ol@);
    let ghost n = views(nl@);
    let max_len = if ol.len() >= nl.len() {
        ol.len()
    } else {
        nl.len()
    };
    let mut out: Vec<(u8, String)> = Vec::new();
    let mut i: usize = 0;
    while i < max_len
        invariant
            o == views(ol@),
            n == views(nl@),
            o == split_nl(old@),
            n == split_nl(new@),
            max_len == if o.len() >= n.len() {
                o.len()
            } else {
                n.len()
            },
            i <= max_len,
            out@.map_values(|c: (u8, String)| (c.0, c.1@)) == rows_entries(o, n, i as int),
        decreases max_len - i,
    {
        let ghost before = out@;
        if i < ol.len() && i < nl.len() {
            if same_text(ol[i].as_str(), nl[i].as_str()) {
                out.push((2u8, ol[i].clone()));
            } else {
                out.push((0u8, ol[i].clone()));
                out.push((1u8, nl[i].clone()));
            }
        } else if i < ol.len() {
            out.push((0u8, ol[i].clone()));
        } else if i < nl.len() {
            out.push((1u8, nl[i].clone()));
        }
        proof {
            assert(line_at(o, i as int) == if i < ol@.len() { Some(ol@[i as int]@) } else { None::<Seq<char>> });
            assert(line_at(n, i as int) == if i < nl@.len() { Some(nl@[i as int]@) } else { None::<Seq<char>> });
            assert(out@.map_values(|c: (u8, String)| (c.0, c.1@)) =~= before.map_values(
                |c: (u8, String)| (c.0, c.1@),
            ) + row_entries(line_at(o, i as int), line_at(n, i as int)));
        }
        i += 1;
    }
    out
}

/// The mark of a tag as a character.
fn mark(t: u8) -> (r: char)
    ensures
        r == tag_char(t),
{
    if t == 0 {
        '-'
    } else if t == 1 {
        '+'
    } else {
        ' '
    }
}

/// Plain lines for the entries (see `plain_lines`).
fn render_plain(es: &Vec<(u8, String)>, suffix: &str) -> (r: String)
    ensures
        r@ == plain_lines(es@.map_values(|c: (u8, String)| (c.0, c.1@)), suffix@),
{
    let ghost v = es@.map_values(|c: (u8, String)| (c.0, c.1@));
    let mut out = String::new();
    let mut i: usize = 0;
    while i < es.len()
        invariant
            i <= es@.len(),
            v == es@.map_values(|c: (u8, String)| (c.0, c.1@)),
            out@ == plain_lines(v.take(i as int), suffix@),
        decreases es@.len() - i,
    {
        push_char(&mut out, mark(es[i].0));
        push_char(&mut out, ' ');
        push_str(&mut out, es[i].1.as_str());
        push_str(&mut out, suffix);
        proof {
            assert(v.take(i + 1).drop_last() =~= v.take(i as int));
            assert(v.take(i + 1).last() == v[i as int]);
            assert(out@ =~= plain_lines(v.take(i + 1), suffix@));
        }
        i += 1;
    }
    assert(v.take(i as int) =~= v);
    out
}

/// Colored lines for the entries (see `colored_text`); each value is
/// displayed first when `display` is set.
fn render_colored(es: &Vec<(u8, String)>, suffix: &str, display: bool) -> (r: String)
    ensures
        colored_text(
            es@.map_values(
                |c: (u8, String)| (c.0, if display {
                    displayed(c.1@)
                } else {
                    c.1@
                }),
            ),
            suffix@,
            r@,
        ),
{
    let ghost v = es@.map_values(
        |c: (u8, String)| (c.0, if display {
            displayed(c.1@)
        } else {
            c.1@
        }),
    );
    let mut out = String::new();
    let ghost mut ps: Seq<(Seq<char>, Seq<char>)> = seq![];
    let mut i: usize = 0;
    while i < es.len()
        invariant
            i <= es@.len(),
            v == es@.map_values(
                |c: (u8, String)| (c.0, if display {
                    displayed(c.1@)
                } else {
                    c.1@
                }),
            ),
            ps.len() == i,
            forall|k: int| 0 <= k < i ==> colored_ok(#[trigger] v[k], ps[k]),
            out@ == colored_lines(ps, suffix@),
        decreases es@.len() - i,
    {
        let t = es[i].0;
        let mut body = es[i].1.clone();
        if display {
            let cs = chars_of(body.as_str());
            let n = cs.len();
            if !(n > 0 && (cs[n - 1] == '\n' || cs[n - 1] == '\r')) {
                push_char(&mut body, '\n');
            }
        }
        assert(body@ == v[i as int].1);
        let ghost before = out@;
        let ghost old_ps = ps;
        if t == 0 || t == 1 {
            let m = if t == 0 {
                paint_red("-")
            } else {
                paint_green("+")
            };
            let b = if t == 0 {
                paint_red(body.as_str())
            } else {
                paint_green(body.as_str())
            };
            push_str(&mut out, m.as_str());
            push_str(&mut out, b.as_str());
            proof {
                reveal_strlit("-");
                reveal_strlit("+");
                assert("-"@ =~= seq!['-']);
                assert("+"@ =~= seq!['+']);
                ps = ps.push((m@, b@));
            }
        } else {
            push_char(&mut out, ' ');
            push_str(&mut out, body.as_str());
            proof {
                ps = ps.push((seq![' '], body@));
            }
        }
        push_str(&mut out, suffix);
        proof {
            assert(ps.drop_last() =~= old_ps);
            assert(out@ =~= colored_lines(old_ps, suffix@) + ps.last().0 + ps.last().1 + suffix@);
            assert forall|k: int| 0 <= k < i + 1 implies colored_ok(#[trigger] v[k], ps[k]) by {
                if k < i {
                    assert(ps[k] == old_ps[k]);
                }
            }
        }
        i += 1;
    }
    proof {
        assert(v.len() == ps.len());
    }
    out
}

impl Differ {
    /// The preview of the differences between two texts aligned by
    /// `similar`: each change as its mark, a space and its line.
    pub fn diff_preview_text(old: &str, new: &str) -> (r: String)
        ensures
            r@ == plain_lines(text_changes(old@, new@), Seq::<char>::empty()),
    {
        let changes = line_changes(old, new);
        proof {
            reveal_strlit("");
            assert(""@ =~= Seq::<char>::empty());
        }
        render_plain(&changes, "")
    }

    /// The preview of a line-by-line comparison: each entry as its mark, a
    /// space, its line and a newline.
    pub fn diff_preview_text_linewise(old: &str, new: &str) -> (r: String)
        ensures
            r@ == plain_lines(linewise_entries(old@, new@), seq!['\n']),
    {
        let changes = linewise_changes(old, new);
        proof {
            reveal_strlit("\n");
            assert("\n"@ =~= seq!['\n']);
        }
        render_plain(&changes, "\n")
    }

    /// The colored differences between two texts aligned by `similar`:
    /// removed lines red with `-`, added lines green with `+`, kept lines
    /// with a space.
    pub fn diff_text(old: &str, new: &str) -> (r: String)
        ensures
            colored_text(displayed_changes(old@, new@), Seq::<char>::empty(), r@),
    {
        let changes = line_changes(old, new);
        proof {
            reveal_strlit("");
            assert(""@ =~= Seq::<char>::empty());
        }
        let r = render_colored(&changes, "", true);
        proof {
            let display = true;
            assert(changes@.map_values(
                |c: (u8, String)| (c.0, if display {
                    displayed(c.1@)
                } else {
                    c.1@
                }),
            ) =~= displayed_changes(old@, new@));
        }
        r
    }

    /// The colored line-by-line comparison, each line ended by a newline.
    pub fn diff_text_linewise(old: &str, new: &str) -> (r: String)
        ensures
            colored_text(linewise_entries(old@, new@), seq!['\n'], r@),
    {
        let changes = linewise_changes(old, new);
        proof {
            reveal_strlit("\n");
            assert("\n"@ =~= seq!['\n']);
        }
        let r = render_colored(&changes, "\n", false);
        proof {
            let display = false;
            assert(changes@.map_values(
                |c: (u8, String)| (c.0, if display {
                    displayed(c.1@)
                } else {
                    c.1@
                }),
            ) =~= linewise_entries(old@, new@));
        }
        r
    }
}

} // verus!
