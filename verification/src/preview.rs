//! Text as the terminal preview shows it: control sequences removed, lines
//! wrapped to a column width by display width, and the number of screen
//! rows a text takes.

use vstd::prelude::*;
use crate::differ::Differ;
use crate::i18n::I18n;
use crate::path::opt_view;
use crate::selection::regex_finds;
use crate::text::{chars_of, push_char, push_str, replace_all, replaced, string_of};

verus! {

/// The key of the navigation hint for a terminal `width` columns wide.
pub open spec fn nav_key(width: u16) -> Seq<char> {
    if width < 90 {
        "status_nav_narrow"@
    } else if width < 165 {
        "status_nav_medium"@
    } else {
        "status_nav_compact"@
    }
}

/// A character of general category `Cc` (what `char::is_control` tests).
pub open spec fn is_cc(c: char) -> bool {
    (c as u32) <= 0x1F || (0x7F <= (c as u32) && (c as u32) <= 0x9F)
}

/// Control characters dropped, except newlines; a tab becomes four spaces.
pub open spec fn cleaned(s: Seq<char>) -> Seq<char>
    decreases s.len(),
{
    if s.len() == 0 {
        seq![]
    } else {
        let c = s.last();
        cleaned(s.drop_last()) + if c == '\n' {
            seq!['\n']
        } else if c == '\t' {
            seq![' ', ' ', ' ', ' ']
        } else if is_cc(c) {
            Seq::<char>::empty()
        } else {
            seq![c]
        }
    }
}

/// The pattern of a terminal control sequence: escape, `[`, parameter
/// bytes, intermediate bytes, a final byte.
pub open spec fn ansi_pattern() -> Seq<char> {
    "\\x1B\\[[0-?]*[ -/]*[@-~]"@
}

/// What replacing every match of a regular expression in a text does, as
/// the `regex` crate computes it; `None` when the pattern does not compile.
pub uninterp spec fn regex_replaced(pattern: Seq<char>, text: Seq<char>, rep: Seq<char>) -> Option<
    Seq<char>,
>;

/// `Regex::new(pattern)` then `replace_all(text, rep)`. Claimed: the
/// result is the named function `regex_replaced` (`None` when the pattern
/// does not compile, as for `is_match`), and, as `replace_all` documents,
/// a text in which the pattern finds no match comes back unchanged.
#[verifier::external_body]
fn regex_replace_all(pattern: &str, text: &str, rep: &str) -> (r: Option<String>)
    ensures
        opt_view(r) == regex_replaced(pattern@, text@, rep@),
        r is Some <==> regex_finds(pattern@, text@) is Some,
        regex_finds(pattern@, text@) == Some(false) ==> opt_view(r) == Some(text@),
{
    match regex::Regex::new(pattern) {
        Ok(re) => Some(re.replace_all(text, rep).into_owned()),
        Err(_) => None,
    }
}

/// A text made safe for the preview: carriage returns become newlines,
/// terminal control sequences go, then `cleaned`.
pub open spec fn preview_text(text: Seq<char>) -> Seq<char> {
    let s1 = replaced(text, seq!['\r'], seq!['\n']);
    match regex_replaced(ansi_pattern(), s1, Seq::<char>::empty()) {
        Some(s2) => cleaned(s2),
        None => cleaned(s1),
    }
}

/// The display width of a character as `unicode-width` reports it: `None`
/// for control characters.
pub uninterp spec fn unicode_width(c: char) -> Option<usize>;

/// `UnicodeWidthChar::width(c)`. Claimed: the answer is the named function
/// `unicode_width`.
#[verifier::external_body]
fn width_of(c: char) -> (r: Option<usize>)
    ensures
        r == unicode_width(c),
{
    unicode_width::UnicodeWidthChar::width(c)
}

/// The columns a character takes in the preview: its display width, at
/// least one.
pub open spec fn display_width(c: char) -> nat {
    match unicode_width(c) {
        Some(w) => if w >= 1 {
            w as nat
        } else {
            1
        },
        None => 1,
    }
}

/// Wrapping state: finished lines, the line being filled, its width.
pub type WrapState = (Seq<Seq<char>>, Seq<char>, int);

/// One character into the wrapping state: a line that would overflow is
/// finished first; a character wider than a whole line stands alone on
/// its line; a line that reaches the width exactly is finished.
pub open spec fn wrap_step(st: WrapState, ch: char, width: int) -> WrapState {
    let w = display_width(ch) as int;
    let st1: WrapState = if st.2 + w > width && st.1.len() > 0 {
        (st.0.push(st.1), seq![], 0)
    } else {
        st
    };
    if w > width {
        if st1.1.len() == 0 {
            (st1.0.push(seq![ch]), seq![], 0)
        } else {
            (st1.0.push(st1.1).push(seq![ch]), seq![], 0)
        }
    } else if st1.2 + w == width {
        (st1.0.push(st1.1.push(ch)), seq![], 0)
    } else {
        (st1.0, st1.1.push(ch), st1.2 + w)
    }
}

/// The wrapping state after the characters of `cs`, in order.
pub open spec fn wrap_fold(cs: Seq<char>, width: int) -> WrapState
    decreases cs.len(),
{
    if cs.len() == 0 {
        (seq![], seq![], 0)
    } else {
        wrap_step(wrap_fold(cs.drop_last(), width), cs.last(), width)
    }
}

/// A line wrapped to `width` columns: the finished lines and the last,
/// partly filled one; at least one (empty) line; a single empty line for
/// width zero.
pub open spec fn wrapped(line: Seq<char>, width: nat) -> Seq<Seq<char>> {
    if width == 0 {
        seq![seq![]]
    } else {
        let st = wrap_fold(line, width as int);
        let l = if st.1.len() > 0 {
            st.0.push(st.1)
        } else {
            st.0
        };
        if l.len() == 0 {
            seq![seq![]]
        } else {
            l
        }
    }
}

/// The rows joined back into one text.
pub open spec fn flatten(rows: Seq<Seq<char>>) -> Seq<char>
    decreases rows.len(),
{
    if rows.len() == 0 {
        seq![]
    } else {
        flatten(rows.drop_last()) + rows.last()
    }
}

/// The columns a text takes: the sum of its characters' widths.
pub open spec fn width_sum(s: Seq<char>) -> int
    decreases s.len(),
{
    if s.len() == 0 {
        0
    } else {
        width_sum(s.drop_last()) + display_width(s.last())
    }
}

/// A row fits `width` columns, or is a single character too wide for any
/// row.
pub open spec fn row_fits(r: Seq<char>, width: int) -> bool {
    width_sum(r) <= width || r.len() == 1
}

/// What every wrapping state reached from a line keeps: the finished rows
/// and the row being filled spell the characters so far, the filled row's
/// width is tracked and below the width, and every finished row fits.
proof fn lemma_wrap_fold(cs: Seq<char>, width: int)
    requires
        width > 0,
    ensures
        flatten(wrap_fold(cs, width).0) + wrap_fold(cs, width).1 == cs,
        wrap_fold(cs, width).2 == width_sum(wrap_fold(cs, width).1),
        wrap_fold(cs, width).2 < width,
        forall|i: int|
            0 <= i < wrap_fold(cs, width).0.len() ==> row_fits(#[trigger] wrap_fold(cs, width).0[i], width),
    decreases cs.len(),
{
    if cs.len() == 0 {
        assert(flatten(seq![]) + seq![] =~= cs);
    } else {
        let pre = cs.drop_last();
        let ch = cs.last();
        lemma_wrap_fold(pre, width);
        let st = wrap_fold(pre, width);
        let w = display_width(ch) as int;
        let st1: WrapState = if st.2 + w > width && st.1.len() > 0 {
            (st.0.push(st.1), seq![], 0)
        } else {
            st
        };
        assert(flatten(st.0.push(st.1)) == flatten(st.0) + st.1) by {
            assert(st.0.push(st.1).drop_last() =~= st.0);
        }
        assert(flatten(st1.0) + st1.1 == pre) by {
            if st.2 + w > width && st.1.len() > 0 {
                assert(flatten(st1.0) + st1.1 =~= flatten(st.0) + st.1);
            }
        }
        assert(st1.2 == width_sum(st1.1));
        assert(st1.2 < width);
        assert(forall|i: int| 0 <= i < st1.0.len() ==> row_fits(#[trigger] st1.0[i], width));
        assert(st1.1.len() == 0 ==> st1.2 == 0);
        assert(pre.push(ch) =~= cs);
        assert(width_sum(st1.1.push(ch)) == st1.2 + w) by {
            assert(st1.1.push(ch).drop_last() =~= st1.1);
        }
        assert(width_sum(seq![ch]) == w) by {
            assert(seq![ch].drop_last() =~= Seq::<char>::empty());
            assert(seq![ch].last() == ch);
            assert(width_sum(Seq::<char>::empty()) == 0);
        }
        let r = wrap_step(st, ch, width);
        assert(r == wrap_fold(cs, width));
        if w > width {
            if st1.1.len() == 0 {
                assert(flatten(st1.0.push(seq![ch])) =~= flatten(st1.0) + seq![ch]) by {
                    assert(st1.0.push(seq![ch]).drop_last() =~= st1.0);
                }
                assert(flatten(r.0) + r.1 =~= cs);
            } else {
                let a = st1.0.push(st1.1);
                assert(flatten(a) =~= flatten(st1.0) + st1.1) by {
                    assert(a.drop_last() =~= st1.0);
                }
                assert(flatten(a.push(seq![ch])) =~= flatten(a) + seq![ch]) by {
                    assert(a.push(seq![ch]).drop_last() =~= a);
                }
                assert(flatten(r.0) + r.1 =~= cs);
            }
            assert forall|i: int| 0 <= i < r.0.len() implies row_fits(#[trigger] r.0[i], width) by {
                if i < st1.0.len() {
                    assert(r.0[i] == st1.0[i]);
                }
            }
        } else if st1.2 + w == width {
            let row = st1.1.push(ch);
            assert(flatten(st1.0.push(row)) =~= flatten(st1.0) + row) by {
                assert(st1.0.push(row).drop_last() =~= st1.0);
            }
            assert(flatten(r.0) + r.1 =~= cs);
            assert forall|i: int| 0 <= i < r.0.len() implies row_fits(#[trigger] r.0[i], width) by {
                if i < st1.0.len() {
                    assert(r.0[i] == st1.0[i]);
                }
            }
        } else {
            assert(flatten(r.0) + r.1 =~= cs);
        }
    }
}

/// Wrapping a line to a positive width loses, adds and reorders no
/// character: its rows read together are the line; and each row fits the
/// width, unless it is a single character wider than a row.
pub proof fn lemma_wrapped_keeps_text(line: Seq<char>, width: nat)
    requires
        width > 0,
    ensures
        flatten(wrapped(line, width)) == line,
        forall|i: int|
            0 <= i < wrapped(line, width).len() ==> row_fits(#[trigger] wrapped(line, width)[i], width as int),
{
    lemma_wrap_fold(line, width as int);
    let st = wrap_fold(line, width as int);
    let l = if st.1.len() > 0 {
        st.0.push(st.1)
    } else {
        st.0
    };
    if st.1.len() > 0 {
        assert(flatten(l) =~= flatten(st.0) + st.1) by {
            assert(l.drop_last() =~= st.0);
        }
        assert forall|i: int| 0 <= i < l.len() implies row_fits(#[trigger] l[i], width as int) by {
            if i < st.0.len() {
                assert(l[i] == st.0[i]);
            }
        }
    } else {
        assert(flatten(l) + st.1 =~= flatten(l));
    }
    if l.len() == 0 {
        assert(flatten(seq![seq![]]) =~= Seq::<char>::empty()) by {
            assert(seq![Seq::<char>::empty()].drop_last() =~= Seq::<Seq<char>>::empty());
        }
        assert(line =~= Seq::<char>::empty());
        assert(width_sum(Seq::<char>::empty()) == 0);
    }
}

/// The pieces of `s` between newlines (`str::split('\n')`): one more than
/// there are newlines.
pub open spec fn split_nl(s: Seq<char>) -> Seq<Seq<char>>
    decreases s.len(),
{
    if s.len() == 0 {
        seq![seq![]]
    } else if s.last() == '\n' {
        split_nl(s.drop_last()).push(seq![])
    } else {
        let p = split_nl(s.drop_last());
        p.update(p.len() - 1, p.last().push(s.last()))
    }
}

/// `split_nl(s)` is never empty.
pub proof fn lemma_split_nl_len(s: Seq<char>)
    ensures
        split_nl(s).len() >= 1,
    decreases s.len(),
{
    if s.len() > 0 {
        lemma_split_nl_len(s.drop_last());
    }
}

/// The rows the pieces take when each is wrapped to `width`.
pub open spec fn rows_of(pieces: Seq<Seq<char>>, width: nat) -> int
    decreases pieces.len(),
{
    if pieces.len() == 0 {
        0
    } else {
        rows_of(pieces.drop_last(), width) + wrapped(pieces.last(), width).len()
    }
}

/// The lines of `s` as `str::lines` counts them: none for an empty text,
/// and a final newline ends the last line rather than starting one.
pub open spec fn lines_count(s: Seq<char>) -> int {
    if s.len() == 0 {
        0
    } else if s.last() == '\n' {
        split_nl(s).len() - 1
    } else {
        split_nl(s).len() as int
    }
}

/// The rows a text takes in a preview `width` columns wide: each piece
/// between newlines wrapped on its own; with width zero, its line count.
pub open spec fn wrapped_rows(text: Seq<char>, width: nat) -> int {
    if width == 0 {
        lines_count(text)
    } else {
        rows_of(split_nl(text), width)
    }
}

/// The texts of `v`, in order.
pub open spec fn views(v: Seq<String>) -> Seq<Seq<char>> {
    v.map_values(|s: String| s@)
}

/// The pieces of `s` between newlines (`str::split('\n')`).
pub fn split_newlines(s: &str) -> (r: Vec<String>)
    ensures
        views(r@) == split_nl(s@),
{
    let cs = chars_of(s);
    let mut out: Vec<String> = Vec::new();
    let mut current: Vec<char> = Vec::new();
    let mut i: usize = 0;
    while i < cs.len()
        invariant
            cs@ == s@,
            i <= cs@.len(),
            split_nl(cs@.take(i as int)) == views(out@).push(current@),
        decreases cs@.len() - i,
    {
        let c = cs[i];
        proof {
            assert(cs@.take(i + 1).drop_last() =~= cs@.take(i as int));
            assert(cs@.take(i + 1).last() == c);
        }
        if c == '\n' {
            let piece = string_of(&current, 0, current.len());
            assert(current@.subrange(0, current@.len() as int) =~= current@);
            let ghost before = views(out@);
            out.push(piece);
            current = Vec::new();
            assert(views(out@) =~= before.push(piece@));
            assert(split_nl(cs@.take(i + 1)) =~= views(out@).push(current@));
        } else {
            current.push(c);
            assert(split_nl(cs@.take(i + 1)) =~= views(out@).push(current@));
        }
        i += 1;
    }
    assert(cs@.take(i as int) =~= cs@);
    let piece = string_of(&current, 0, current.len());
    assert(current@.subrange(0, current@.len() as int) =~= current@);
    let ghost before = views(out@);
    out.push(piece);
    assert(views(out@) =~= before.push(piece@));
    out
}

impl Differ {
    /// The navigation hint for a terminal `width` columns wide: the narrow
    /// one below 90 columns, the medium one below 165, else the full one.
    pub fn get_nav_hint_by_width(width: u16, i18n: &I18n) -> (r: String)
        ensures
            r@ == i18n.text_for(nav_key(width)),
    {
        if width < 90 {
            i18n.t("status_nav_narrow")
        } else if width < 165 {
            i18n.t("status_nav_medium")
        } else {
            i18n.t("status_nav_compact")
        }
    }

    /// A text made safe for the preview (see `preview_text`); a text with
    /// no terminal control sequence is only cleaned.
    pub fn sanitize_for_preview(text: &str) -> (r: String)
        ensures
            r@ == preview_text(text@),
            regex_finds(ansi_pattern(), replaced(text@, seq!['\r'], seq!['\n'])) == Some(false) ==> r@
                == cleaned(replaced(text@, seq!['\r'], seq!['\n'])),
    {
        proof {
            reveal_strlit("\r");
        }
        let s1 = replace_all(text, "\r", "\n");
        proof {
            reveal_strlit("\r");
            reveal_strlit("\n");
            assert("\r"@ =~= seq!['\r']);
            assert("\n"@ =~= seq!['\n']);
            reveal_strlit("");
            assert(""@ =~= Seq::<char>::empty());
        }
        let s2 = match regex_replace_all("\\x1B\\[[0-?]*[ -/]*[@-~]", s1.as_str(), "") {
            Some(t) => t,
            None => s1,
        };
        let cs = chars_of(s2.as_str());
        let mut out = String::new();
        let mut i: usize = 0;
        while i < cs.len()
            invariant
                i <= cs@.len(),
                out@ == cleaned(cs@.take(i as int)),
            decreases cs@.len() - i,
        {
            let c = cs[i];
            let u = c as u32;
            proof {
                assert(cs@.take(i + 1).drop_last() =~= cs@.take(i as int));
                assert(cs@.take(i + 1).last() == c);
            }
            let ghost before = out@;
            if c == '\n' {
                push_char(&mut out, '\n');
            } else if c == '\t' {
                push_str(&mut out, "    ");
                proof {
                    reveal_strlit("    ");
                }
            } else if u <= 0x1F || (0x7F <= u && u <= 0x9F) {
            } else {
                push_char(&mut out, c);
            }
            assert(out@ =~= cleaned(cs@.take(i + 1)));
            i += 1;
        }
        assert(cs@.take(i as int) =~= cs@);
        out
    }

    /// The columns a character takes in the preview (see `display_width`).
    pub fn char_display_width(ch: char) -> (r: usize)
        ensures
            r == display_width(ch),
    {
        match width_of(ch) {
            Some(w) => if w >= 1 {
                w
            } else {
                1
            },
            None => 1,
        }
    }

    /// A line wrapped to `width` columns (see `wrapped`); never more lines
    /// than characters plus one.
    pub fn wrap_line_to_width(line: &str, width: usize) -> (r: Vec<String>)
        ensures
            views(r@) == wrapped(line@, width as nat),
            r@.len() <= line@.len() + 1,
    {
        if width == 0 {
            let mut v: Vec<String> = Vec::new();
            v.push(String::new());
            assert(views(v@) =~= seq![Seq::<char>::empty()]);
            return v;
        }
        let cs = chars_of(line);
        let mut result: Vec<String> = Vec::new();
        let mut current: Vec<char> = Vec::new();
        let mut current_width: usize = 0;
        let mut i: usize = 0;
        while i < cs.len()
            invariant
                cs@ == line@,
                width > 0,
                i <= cs@.len(),
                (views(result@), current@, current_width as int) == wrap_fold(cs@.take(i as int), width as int),
                current_width < width,
                current@.len() == 0 ==> current_width == 0,
                result@.len() + current@.len() <= i,
            decreases cs@.len() - i,
        {
            let ch = cs[i];
            let w = Self::char_display_width(ch);
            proof {
                assert(cs@.take(i + 1).drop_last() =~= cs@.take(i as int));
                assert(cs@.take(i + 1).last() == ch);
            }
            let ghost st = (views(result@), current@, current_width as int);
            if w > width - current_width && current.len() > 0 {
                let s = string_of(&current, 0, current.len());
                assert(current@.subrange(0, current@.len() as int) =~= current@);
                result.push(s);
                current = Vec::new();
                current_width = 0;
                assert(views(result@) =~= st.0.push(st.1));
            }
            if w > width {
                if current.len() == 0 {
                    let mut s = String::new();
                    push_char(&mut s, ch);
                    result.push(s);
                    assert(s@ =~= seq![ch]);
                } else {
                    let s = string_of(&current, 0, current.len());
                    assert(current@.subrange(0, current@.len() as int) =~= current@);
                    result.push(s);
                    let mut t = String::new();
                    push_char(&mut t, ch);
                    result.push(t);
                    current = Vec::new();
                    current_width = 0;
                }
            } else {
                current.push(ch);
                current_width = current_width + w;
                if current_width == width {
                    let s = string_of(&current, 0, current.len());
                    assert(current@.subrange(0, current@.len() as int) =~= current@);
                    result.push(s);
                    current = Vec::new();
                    current_width = 0;
                }
            }
            assert((views(result@), current@, current_width as int) =~= wrap_fold(
                cs@.take(i + 1),
                width as int,
            ));
            i += 1;
        }
        assert(cs@.take(i as int) =~= cs@);
        if current.len() > 0 {
            let s = string_of(&current, 0, current.len());
            assert(current@.subrange(0, current@.len() as int) =~= current@);
            let ghost before = views(result@);
            result.push(s);
            assert(views(result@) =~= before.push(current@));
        }
        if result.len() == 0 {
            result.push(String::new());
            assert(views(result@) =~= seq![Seq::<char>::empty()]);
        }
        result
    }

    /// The rows a text takes in a preview `width` columns wide (see
    /// `wrapped_rows`).
    pub fn count_wrapped_lines(text: &str, width: usize) -> (r: usize)
        requires
            text@.len() < usize::MAX,
        ensures
            r == wrapped_rows(text@, width as nat),
    {
        let cs = chars_of(text);
        let n = cs.len();
        let mut total: usize = 0;
        let mut pieces: usize = 1;
        let mut current: Vec<char> = Vec::new();
        let ghost mut done: Seq<Seq<char>> = seq![];
        let mut i: usize = 0;
        while i < n
            invariant
                cs@ == text@,
                n == cs@.len(),
                n < usize::MAX,
                i <= n,
                split_nl(cs@.take(i as int)) == done.push(current@),
                pieces == done.len() + 1,
                pieces <= i + 1,
                width > 0 ==> total == rows_of(done, width as nat),
                width > 0 ==> total + current@.len() <= i,
            decreases n - i,
        {
            let c = cs[i];
            proof {
                assert(cs@.take(i + 1).drop_last() =~= cs@.take(i as int));
                assert(cs@.take(i + 1).last() == c);
            }
            if c == '\n' {
                if width > 0 {
                    let segs = Self::wrap_line_to_width(string_of(&current, 0, current.len()).as_str(), width);
                    proof {
                        assert(current@.subrange(0, current@.len() as int) =~= current@);
                        assert(done.push(current@).drop_last() =~= done);
                    }
                    total = total + segs.len();
                }
                proof {
                    done = done.push(current@);
                }
                current = Vec::new();
                pieces = pieces + 1;
                assert(split_nl(cs@.take(i + 1)) =~= done.push(current@));
            } else {
                let ghost before = current@;
                current.push(c);
                assert(split_nl(cs@.take(i + 1)) =~= done.push(current@));
            }
            i += 1;
        }
        assert(cs@.take(i as int) =~= cs@);
        if width == 0 {
            if n == 0 {
                return 0;
            }
            proof {
                lemma_split_nl_len(cs@);
            }
            if cs[n - 1] == '\n' {
                return pieces - 1;
            }
            return pieces;
        }
        let segs = Self::wrap_line_to_width(string_of(&current, 0, current.len()).as_str(), width);
        proof {
            assert(current@.subrange(0, current@.len() as int) =~= current@);
            assert(done.push(current@).drop_last() =~= done);
        }
        total + segs.len()
    }
}

} // verus!
