//! The decisions of the interactive run selection: what each key does to
//! the filter, the cursor, the chosen pair, the preview and the pending
//! deletion. Drawing, reading keys, reloading runs and deleting them are
//! done by the caller, which the returned step tells what to do next.

use vstd::prelude::*;
use crate::differ::Differ;
use crate::fuzzy_matcher::{bytes_of, score_fits};
use crate::groups::{filtered_ok, run_search_text};
use crate::i18n::{fill, I18n};
use crate::selection::all_runs_valid;
use crate::storage::CommandExecution;
use crate::store_manager::{executions_sorted, sort_executions};
use crate::text::{is_whitespace, is_ws, same_text, string_of};

verus! {

/// A key, as the selection distinguishes keys.
#[derive(Debug, Clone, Copy, PartialEq, Eq, Structural)]
pub enum Key {
    Char(char),
    Up,
    Down,
    Left,
    Right,
    PageUp,
    PageDown,
    Home,
    End,
    Tab,
    BackTab,
    Enter,
    Esc,
    Backspace,
    Delete,
    Other,
}

/// A key with its modifiers.
#[derive(Debug, Clone, Copy, PartialEq, Eq, Structural)]
pub struct KeyPress {
    pub key: Key,
    pub ctrl: bool,
    pub alt: bool,
    pub shift: bool,
}

/// What the caller does after a key.
#[derive(Debug, Clone, Copy, PartialEq, Eq, Structural)]
pub enum Step {
    /// Nothing changed on screen.
    Stay,
    /// Draw again.
    Redraw,
    /// Leave the selection; `outcome` gives the chosen pair.
    Finish,
    /// Load the runs again and hand them to `reloaded`.
    Reload,
    /// Delete the run under the cursor (`target`) and report with
    /// `delete_done`.
    Delete,
}

/// The state of the selection as the contracts speak of it.
pub struct SelView {
    /// What the user typed to filter the runs.
    pub filter: Seq<char>,
    /// The ids of the chosen runs (at most two).
    pub chosen: Seq<Seq<char>>,
    /// The cursor's position in the filtered list.
    pub cur: int,
    /// How far the preview is scrolled.
    pub offset: int,
    /// Whether the help is shown.
    pub help: bool,
    /// Whether the preview has the focus.
    pub preview: bool,
    /// The id of the run awaiting a second delete key.
    pub pending: Option<Seq<char>>,
    /// The message shown in the footer.
    pub message: Option<Seq<char>>,
    /// Whether the preview shows standard error alone (else standard
    /// output, followed by standard error when there is some).
    pub stderr: bool,
}

/// The state of the interactive run selection.
pub struct SelectionState {
    filter: Vec<char>,
    selected_ids: Vec<String>,
    current: usize,
    offset: u16,
    help: bool,
    preview: bool,
    pending: Option<String>,
    message: Option<String>,
    filtered: Vec<usize>,
    dates: Vec<String>,
    stderr: bool,
}

/// The texts of an optional string.
pub open spec fn opt_text(o: Option<String>) -> Option<Seq<char>> {
    match o {
        Some(s) => Some(s@),
        None => None,
    }
}

/// Rows a page moves the cursor: the terminal height less six, or ten
/// when the height is unknown.
pub open spec fn list_page(h: Option<u16>) -> int {
    match h {
        Some(x) => if x >= 6 {
            x - 6
        } else {
            0
        },
        None => 10,
    }
}

/// Rows a page scrolls the preview: the height less four, or ten.
pub open spec fn view_page(h: Option<u16>) -> int {
    match h {
        Some(x) => if x >= 4 {
            x - 4
        } else {
            0
        },
        None => 10,
    }
}

/// Rows half a page scrolls the preview: half the height, or five.
pub open spec fn half_page(h: Option<u16>) -> int {
    match h {
        Some(x) => (x / 2) as int,
        None => 5,
    }
}

/// `a - b`, not below zero.
pub open spec fn sat_down(a: int, b: int) -> int {
    if a >= b {
        a - b
    } else {
        0
    }
}

/// `a + b`, not above the largest `u16`.
pub open spec fn sat_up(a: int, b: int) -> int {
    if a + b <= 65535 {
        a + b
    } else {
        65535
    }
}

/// The first position, from `k` on, where `s` holds `x` (the length when
/// none does).
pub open spec fn first_pos(s: Seq<Seq<char>>, x: Seq<char>, k: int) -> int
    decreases s.len() - k,
{
    if k < 0 || k >= s.len() {
        s.len() as int
    } else if s[k] == x {
        k
    } else {
        first_pos(s, x, k + 1)
    }
}

/// The chosen ids after choosing `id`: a chosen id is dropped, another is
/// added while fewer than two are chosen.
pub open spec fn toggled(chosen: Seq<Seq<char>>, id: Seq<char>) -> Seq<Seq<char>> {
    if first_pos(chosen, id, 0) < chosen.len() {
        chosen.remove(first_pos(chosen, id, 0))
    } else if chosen.len() < 2 {
        chosen.push(id)
    } else {
        chosen
    }
}

/// `first_pos` from `k` finds `x` exactly when `x` occurs at or after
/// `k`, and then at the first such place.
proof fn lemma_first_pos(s: Seq<Seq<char>>, x: Seq<char>, k: int)
    requires
        0 <= k <= s.len(),
    ensures
        k <= first_pos(s, x, k) <= s.len(),
        first_pos(s, x, k) < s.len() ==> s[first_pos(s, x, k)] == x,
        forall|j: int| k <= j < first_pos(s, x, k) ==> s[j] != x,
    decreases s.len() - k,
{
    if k < s.len() && s[k] != x {
        lemma_first_pos(s, x, k + 1);
    }
}

/// Keeping some of a list that holds nothing twice holds nothing twice.
proof fn lemma_filter_unique(s: Seq<Seq<char>>, p: spec_fn(Seq<char>) -> bool)
    requires
        s.no_duplicates(),
    ensures
        s.filter(p).no_duplicates(),
    decreases s.len(),
{
    if s.len() > 0 {
        let pre = s.drop_last();
        let x = s.last();
        assert(pre.no_duplicates()) by {
            assert forall|i: int, j: int| 0 <= i < pre.len() && 0 <= j < pre.len() && i != j implies pre[i] != pre[j] by {
                assert(pre[i] == s[i] && pre[j] == s[j]);
            }
        }
        lemma_filter_unique(pre, p);
        assert(pre.push(x) =~= s);
        pre.lemma_filter_push(x, p);
        if p(x) {
            let f = pre.filter(p);
            assert(!f.contains(x)) by {
                if f.contains(x) {
                    pre.lemma_filter_contains_rev(p, x);
                    let k = choose|k: int| 0 <= k < pre.len() && pre[k] == x;
                    assert(s[k] == s[s.len() - 1]);
                }
            }
            assert forall|i: int, j: int| 0 <= i < f.push(x).len() && 0 <= j < f.push(x).len() && i != j implies f.push(x)[i] != f.push(x)[j] by {
                if i < f.len() && j < f.len() {
                } else if i < f.len() {
                    assert(f.push(x)[j] == x);
                    assert(f.contains(f[i]));
                } else {
                    assert(f.push(x)[i] == x);
                    assert(f.contains(f[j]));
                }
            }
        }
    }
}

/// A selection never holds more than two chosen runs, nor one run twice:
/// every state that `new`, `on_key`, `delete_done` and `reloaded` give
/// fits its runs, and a state that fits holds so.
pub proof fn lemma_choice_bounded(s: SelectionState, n: int)
    requires
        s.fits(n),
    ensures
        s.model().chosen.len() <= 2,
        s.model().chosen.no_duplicates(),
{
}

/// Choosing a run: with each run chosen at most once and at most two
/// chosen, choosing flips whether the run is chosen (adding it only while
/// fewer than two are chosen), leaves every other run as it was, keeps
/// each run at most once and at most two; choosing a run that was not
/// chosen and then choosing it again gives the choice back unchanged.
pub proof fn lemma_toggle(chosen: Seq<Seq<char>>, id: Seq<char>)
    requires
        chosen.len() <= 2,
        chosen.no_duplicates(),
    ensures
        toggled(chosen, id).len() <= 2,
        toggled(chosen, id).no_duplicates(),
        chosen.contains(id) ==> !toggled(chosen, id).contains(id),
        !chosen.contains(id) && chosen.len() < 2 ==> toggled(chosen, id).contains(id),
        !chosen.contains(id) && chosen.len() == 2 ==> toggled(chosen, id) == chosen,
        forall|x: Seq<char>| x != id ==> (toggled(chosen, id).contains(x) <==> chosen.contains(x)),
        !chosen.contains(id) && chosen.len() < 2 ==> toggled(toggled(chosen, id), id) == chosen,
{
    lemma_first_pos(chosen, id, 0);
    let p = first_pos(chosen, id, 0);
    let t = toggled(chosen, id);
    if p < chosen.len() {
        assert(t == chosen.remove(p));
        assert forall|i: int, j: int| 0 <= i < t.len() && 0 <= j < t.len() && i != j implies t[i] != t[j] by {
            let a = if i < p { i } else { i + 1 };
            let b = if j < p { j } else { j + 1 };
            assert(t[i] == chosen[a] && t[j] == chosen[b]);
        }
        assert(!t.contains(id)) by {
            if t.contains(id) {
                let i = choose|i: int| 0 <= i < t.len() && t[i] == id;
                let a = if i < p { i } else { i + 1 };
                assert(chosen[a] == id && chosen[p] == id && a != p);
            }
        }
        assert forall|x: Seq<char>| x != id implies (t.contains(x) <==> chosen.contains(x)) by {
            if chosen.contains(x) {
                let a = choose|a: int| 0 <= a < chosen.len() && chosen[a] == x;
                assert(a != p);
                let i = if a < p { a } else { a - 1 };
                assert(t[i] == x);
            }
            if t.contains(x) {
                let i = choose|i: int| 0 <= i < t.len() && t[i] == x;
                let a = if i < p { i } else { i + 1 };
                assert(chosen[a] == x);
            }
        }
    } else {
        assert(!chosen.contains(id)) by {
            if chosen.contains(id) {
                let j = choose|j: int| 0 <= j < chosen.len() && chosen[j] == id;
                assert(chosen[j] != id);
            }
        }
        if chosen.len() < 2 {
            assert(t == chosen.push(id));
            assert(t[chosen.len() as int] == id);
            assert forall|i: int, j: int| 0 <= i < t.len() && 0 <= j < t.len() && i != j implies t[i] != t[j] by {
                if i < chosen.len() && j < chosen.len() {
                    assert(t[i] == chosen[i] && t[j] == chosen[j]);
                } else if i < chosen.len() {
                    assert(t[i] == chosen[i]);
                } else if j < chosen.len() {
                    assert(t[j] == chosen[j]);
                }
            }
            assert forall|x: Seq<char>| x != id implies (t.contains(x) <==> chosen.contains(x)) by {
                if chosen.contains(x) {
                    let a = choose|a: int| 0 <= a < chosen.len() && chosen[a] == x;
                    assert(t[a] == x);
                }
                if t.contains(x) {
                    let i = choose|i: int| 0 <= i < t.len() && t[i] == x;
                    assert(i < chosen.len());
                    assert(chosen[i] == x);
                }
            }
            lemma_first_pos(t, id, 0);
            let q = first_pos(t, id, 0);
            assert(q == chosen.len()) by {
                if q < chosen.len() {
                    assert(t[q] == chosen[q]);
                }
            }
            assert(toggled(t, id) =~= chosen);
        }
    }
}

/// The number of non-whitespace characters at the end of `s`.
pub open spec fn trail_word(s: Seq<char>) -> nat
    decreases s.len(),
{
    if s.len() > 0 && !is_ws(s.last()) {
        1 + trail_word(s.drop_last())
    } else {
        0
    }
}

/// The filter after deleting the last word: trailing whitespace, then the
/// word before it.
pub open spec fn without_last_word(s: Seq<char>) -> Seq<char> {
    let t = crate::text::trim_end(s);
    t.take(t.len() - trail_word(t))
}

/// A pending deletion is dropped, with its message.
pub open spec fn cleared(v: SelView) -> SelView {
    if v.pending is Some {
        SelView { pending: None, message: None, ..v }
    } else {
        v
    }
}

/// A key that leaves the selection at once, with nothing chosen: Ctrl-C,
/// Ctrl-D, or their control characters.
pub open spec fn quit_key(k: KeyPress) -> bool {
    ||| (k.ctrl && (k.key == Key::Char('c') || k.key == Key::Char('d')))
    ||| k.key == Key::Char('\u{3}')
    ||| k.key == Key::Char('\u{4}')
}

/// How a key changes the selection, given the number of filtered runs `n`,
/// the run under the cursor (`target`: its id and time as shown), the
/// terminal height, whether runs can be deleted, and the messages. The
/// flag says that the filter changed and the filtered list is computed
/// anew.
pub open spec fn next_view(
    v: SelView,
    k: KeyPress,
    n: int,
    target: Option<(Seq<char>, Seq<char>)>,
    h: Option<u16>,
    can_delete: bool,
    i18n: I18n,
) -> (SelView, Step, bool) {
    let c = cleared(v);
    if quit_key(k) {
        (SelView { chosen: seq![], ..v }, Step::Finish, false)
    } else if k.key == Key::Esc {
        if v.preview {
            if v.help {
                (SelView { help: false, ..v }, Step::Redraw, false)
            } else {
                (SelView { preview: false, ..v }, Step::Redraw, false)
            }
        } else {
            (SelView { chosen: seq![], ..v }, Step::Finish, false)
        }
    } else if (k.key == Key::Char('x') && k.ctrl) || (k.key == Key::Backspace && k.shift && can_delete) {
        delete_request(v, target, can_delete, i18n)
    } else if k.key == Key::Backspace && k.shift {
        if !v.preview && v.filter.len() > 0 {
            (SelView { filter: c.filter.drop_last(), cur: 0, offset: 0, message: None, ..c }, Step::Redraw, true)
        } else {
            (v, Step::Stay, false)
        }
    } else if !v.preview {
        list_key(v, c, k, n, target, h, i18n)
    } else {
        preview_key(v, k, n, target, h)
    }
}

/// The delete key: nothing without a way to delete; with no run under the
/// cursor, a note; a second press on the same run deletes it; a first
/// press asks for confirmation.
pub open spec fn delete_request(
    v: SelView,
    target: Option<(Seq<char>, Seq<char>)>,
    can_delete: bool,
    i18n: I18n,
) -> (SelView, Step, bool) {
    if !can_delete {
        (v, Step::Stay, false)
    } else {
        match target {
            None => (
                SelView { pending: None, message: Some(i18n.text_for("delete_nothing"@)), ..v },
                Step::Redraw,
                false,
            ),
            Some(t) => if v.pending == Some(t.0) {
                (v, Step::Delete, false)
            } else {
                (
                    SelView {
                        pending: Some(t.0),
                        message: Some(fill(i18n.text_for("delete_confirm_status"@), seq![t.1])),
                        ..v
                    },
                    Step::Redraw,
                    false,
                )
            },
        }
    }
}

/// A key while the list has the focus (`c` is `v` with any pending
/// deletion dropped).
pub open spec fn list_key(
    v: SelView,
    c: SelView,
    k: KeyPress,
    n: int,
    target: Option<(Seq<char>, Seq<char>)>,
    h: Option<u16>,
    i18n: I18n,
) -> (SelView, Step, bool) {
    let key = k.key;
    if key == Key::Left || key == Key::Right {
        (SelView { stderr: !v.stderr, offset: 0, ..v }, Step::Redraw, false)
    } else if key == Key::Up || key == Key::Char('k') || (key == Key::Char('p') && k.ctrl) {
        if v.cur > 0 {
            (SelView { cur: c.cur - 1, offset: 0, ..c }, Step::Redraw, false)
        } else {
            (c, Step::Redraw, false)
        }
    } else if key == Key::Down || key == Key::Char('j') || (key == Key::Char('n') && k.ctrl) {
        if v.cur + 1 < n {
            (SelView { cur: c.cur + 1, offset: 0, ..c }, Step::Redraw, false)
        } else {
            (c, Step::Redraw, false)
        }
    } else if key == Key::PageUp || (key == Key::Char('b') && k.ctrl) {
        (SelView { cur: sat_down(v.cur, list_page(h)), offset: 0, ..c }, Step::Redraw, false)
    } else if key == Key::PageDown || (key == Key::Char('f') && k.ctrl) {
        if n > 0 {
            (
                SelView {
                    cur: if v.cur + list_page(h) <= n - 1 {
                        v.cur + list_page(h)
                    } else {
                        n - 1
                    },
                    offset: 0,
                    ..c
                },
                Step::Redraw,
                false,
            )
        } else {
            (c, Step::Stay, false)
        }
    } else if (key == Key::Home || key == Key::Char('a')) && k.ctrl {
        (SelView { cur: 0, offset: 0, ..c }, Step::Redraw, false)
    } else if (key == Key::End || key == Key::Char('e')) && k.ctrl {
        if n > 0 {
            (SelView { cur: n - 1, offset: 0, ..c }, Step::Redraw, false)
        } else {
            (c, Step::Stay, false)
        }
    } else if key == Key::Tab || key == Key::BackTab || key == Key::Char(' ') || key == Key::Enter {
        if key == Key::Enter && v.chosen.len() == 2 {
            (c, Step::Finish, false)
        } else {
            match target {
                None => (c, Step::Stay, false),
                Some(t) => {
                    let moved = SelView { preview: true, offset: 0, ..c };
                    if key == Key::Tab {
                        (moved, Step::Redraw, false)
                    } else if first_pos(c.chosen, t.0, 0) < c.chosen.len() {
                        (SelView { chosen: toggled(c.chosen, t.0), message: None, ..moved }, Step::Redraw, false)
                    } else if c.chosen.len() < 2 {
                        (
                            SelView {
                                chosen: toggled(c.chosen, t.0),
                                message: if c.chosen.len() + 1 == 2 {
                                    Some(i18n.text_for("selection_complete"@))
                                } else {
                                    None
                                },
                                ..moved
                            },
                            Step::Redraw,
                            false,
                        )
                    } else {
                        (
                            SelView { message: Some(i18n.text_for("selection_limit_reached"@)), ..moved },
                            Step::Redraw,
                            false,
                        )
                    }
                },
            }
        }
    } else if (key matches Key::Char(_)) && !k.ctrl && !k.alt {
        (
            SelView { filter: c.filter.push(key->Char_0), cur: 0, offset: 0, message: None, ..c },
            Step::Redraw,
            true,
        )
    } else if key == Key::Backspace {
        if v.filter.len() > 0 {
            (SelView { filter: c.filter.drop_last(), cur: 0, offset: 0, message: None, ..c }, Step::Redraw, true)
        } else {
            (c, Step::Stay, false)
        }
    } else if key == Key::Delete && !k.ctrl && !k.alt {
        if v.filter.len() > 0 {
            (SelView { filter: seq![], cur: 0, offset: 0, message: None, ..c }, Step::Redraw, true)
        } else {
            (c, Step::Stay, false)
        }
    } else if key == Key::Char('u') && k.ctrl {
        (SelView { filter: seq![], cur: 0, offset: 0, message: None, ..c }, Step::Reload, false)
    } else if key == Key::Char('w') && k.ctrl {
        (SelView { filter: without_last_word(c.filter), cur: 0, offset: 0, message: None, ..c }, Step::Reload, false)
    } else {
        (v, Step::Stay, false)
    }
}

/// A key while the preview has the focus.
pub open spec fn preview_key(
    v: SelView,
    k: KeyPress,
    n: int,
    target: Option<(Seq<char>, Seq<char>)>,
    h: Option<u16>,
) -> (SelView, Step, bool) {
    let key = k.key;
    if key == Key::Up || key == Key::Char('k') {
        if k.alt {
            (SelView { offset: sat_down(v.offset, half_page(h)), ..v }, Step::Redraw, false)
        } else if k.ctrl || k.shift {
            (SelView { offset: sat_down(v.offset, 1), ..v }, Step::Redraw, false)
        } else if n > 0 {
            let cur = sat_down(v.cur, 1);
            (
                SelView {
                    cur,
                    preview: false,
                    help: false,
                    offset: if cur != v.cur {
                        0
                    } else {
                        v.offset
                    },
                    ..v
                },
                Step::Redraw,
                false,
            )
        } else {
            (v, Step::Redraw, false)
        }
    } else if key == Key::Down || key == Key::Char('j') {
        if k.alt {
            (SelView { offset: sat_up(v.offset, half_page(h)), ..v }, Step::Redraw, false)
        } else if k.ctrl || k.shift {
            (SelView { offset: sat_up(v.offset, 1), ..v }, Step::Redraw, false)
        } else if n > 0 {
            if v.cur + 1 < n {
                (SelView { cur: v.cur + 1, offset: 0, preview: false, help: false, ..v }, Step::Redraw, false)
            } else {
                (SelView { preview: false, help: false, ..v }, Step::Redraw, false)
            }
        } else {
            (v, Step::Redraw, false)
        }
    } else if key == Key::PageUp || key == Key::Backspace || key == Key::Char('b') {
        (SelView { offset: sat_down(v.offset, view_page(h)), ..v }, Step::Redraw, false)
    } else if key == Key::PageDown || key == Key::Char(' ') || key == Key::Char('f') {
        (SelView { offset: sat_up(v.offset, view_page(h)), ..v }, Step::Redraw, false)
    } else if key == Key::Char('d') {
        (SelView { offset: sat_up(v.offset, half_page(h)), ..v }, Step::Redraw, false)
    } else if key == Key::Char('u') {
        (SelView { offset: sat_down(v.offset, half_page(h)), ..v }, Step::Redraw, false)
    } else if key == Key::Home || (key == Key::Char('g') && !k.ctrl && !k.alt) {
        (SelView { offset: 0, ..v }, Step::Redraw, false)
    } else if key == Key::End || (key == Key::Char('G') && !k.ctrl && !k.alt) {
        (SelView { offset: 65535, ..v }, Step::Redraw, false)
    } else if (key == Key::Char('?') || key == Key::Char('h')) && !k.ctrl {
        (SelView { help: !v.help, ..v }, Step::Redraw, false)
    } else if key == Key::Char('q') {
        (SelView { preview: false, ..v }, Step::Redraw, false)
    } else if key == Key::Char('Q') {
        (SelView { chosen: seq![], ..v }, Step::Finish, false)
    } else if key == Key::Left || key == Key::Right || (key == Key::Char('o') && !k.ctrl && !k.alt) {
        (SelView { stderr: !v.stderr, offset: 0, ..v }, Step::Redraw, false)
    } else if key == Key::Enter {
        if v.chosen.len() == 2 {
            (v, Step::Finish, false)
        } else {
            match target {
                Some(t) => (SelView { chosen: toggled(v.chosen, t.0), ..v }, Step::Redraw, false),
                None => (v, Step::Stay, false),
            }
        }
    } else {
        (v, Step::Stay, false)
    }
}

/// Typing a character into the list's filter and then pressing Backspace
/// gives the filter back as it was (for a character that is not a list
/// key of its own: `j`, `k`, space, or a control character that quits).
pub proof fn lemma_type_then_erase(
    v: SelView,
    c: char,
    n1: int,
    n2: int,
    t1: Option<(Seq<char>, Seq<char>)>,
    t2: Option<(Seq<char>, Seq<char>)>,
    h: Option<u16>,
    can_delete: bool,
    i18n: I18n,
)
    requires
        !v.preview,
        c != 'j',
        c != 'k',
        c != ' ',
        c != '\u{3}',
        c != '\u{4}',
    ensures
        ({
            let typed = next_view(v, KeyPress { key: Key::Char(c), ctrl: false, alt: false, shift: false }, n1, t1, h, can_delete, i18n).0;
            let erased = next_view(typed, KeyPress { key: Key::Backspace, ctrl: false, alt: false, shift: false }, n2, t2, h, can_delete, i18n).0;
            &&& typed.filter == v.filter.push(c)
            &&& erased.filter == v.filter
        }),
{
    let typed = next_view(v, KeyPress { key: Key::Char(c), ctrl: false, alt: false, shift: false }, n1, t1, h, can_delete, i18n).0;
    assert(typed.filter == v.filter.push(c));
    assert(v.filter.push(c).drop_last() =~= v.filter);
}

/// A run is deleted only on a second request for it: the first delete
/// request (Ctrl-X) on a run that is not already pending only marks it and
/// shows the confirmation, everything else unchanged; the same request
/// again, on the same run, deletes it and changes nothing else.
pub proof fn lemma_delete_needs_confirmation(
    v: SelView,
    n1: int,
    n2: int,
    t: (Seq<char>, Seq<char>),
    h: Option<u16>,
    i18n: I18n,
)
    requires
        v.pending != Some(t.0),
    ensures
        ({
            let k = KeyPress { key: Key::Char('x'), ctrl: true, alt: false, shift: false };
            let first = next_view(v, k, n1, Some(t), h, true, i18n);
            let second = next_view(first.0, k, n2, Some(t), h, true, i18n);
            &&& first.1 == Step::Redraw
            &&& first.0 == (SelView {
                pending: Some(t.0),
                message: Some(fill(i18n.text_for("delete_confirm_status"@), seq![t.1])),
                ..v
            })
            &&& second.1 == Step::Delete
            &&& second.0 == first.0
        }),
{
}

/// The texts the runs are found by.
pub open spec fn search_texts(execs: Seq<CommandExecution>, dates: Seq<String>) -> Seq<Seq<char>> {
    Seq::new(execs.len(), |i: int| run_search_text(i, dates[i]@, execs[i]))
}

impl SelectionState {
    /// The state as the contracts speak of it.
    pub closed spec fn model(&self) -> SelView {
        SelView {
            filter: self.filter@,
            chosen: self.selected_ids@.map_values(|s: String| s@),
            cur: self.current as int,
            offset: self.offset as int,
            help: self.help,
            preview: self.preview,
            pending: opt_text(self.pending),
            message: opt_text(self.message),
            stderr: self.stderr,
        }
    }

    /// The positions of the runs the filter keeps, in the order shown.
    pub closed spec fn shown(&self) -> Seq<usize> {
        self.filtered@
    }

    /// The runs' times as shown.
    pub closed spec fn times(&self) -> Seq<String> {
        self.dates@
    }

    /// The state fits `n` runs: a time for each, shown positions among
    /// them, and the cursor on a shown run (or at the top of an empty
    /// list).
    pub closed spec fn fits(&self, n: int) -> bool {
        &&& self.dates@.len() == n
        &&& forall|i: int| 0 <= i < self.filtered@.len() ==> (#[trigger] self.filtered@[i]) < n
        &&& (self.current == 0 || self.current < self.filtered@.len())
        &&& self.selected_ids@.len() <= 2
        &&& self.selected_ids@.map_values(|s: String| s@).no_duplicates()
    }

    /// The run under the cursor, with its id and time as shown.
    pub open spec fn target_of(&self, execs: Seq<CommandExecution>) -> Option<(Seq<char>, Seq<char>)> {
        if 0 <= self.model().cur < self.shown().len() {
            let oi = self.shown()[self.model().cur] as int;
            Some((execs[oi].record.record_id@, self.times()[oi]@))
        } else {
            None
        }
    }

    /// A fresh selection over the runs: empty filter, all runs shown, the
    /// cursor on the first.
    pub fn new(execs: &Vec<CommandExecution>) -> (r: Self)
        requires
            all_runs_valid(execs@),
        ensures
            r.fits(execs@.len() as int),
            r.model() == (SelView {
                filter: seq![],
                chosen: seq![],
                cur: 0,
                offset: 0,
                help: false,
                preview: false,
                pending: None,
                message: None,
                stderr: false,
            }),
            filtered_ok(search_texts(execs@, r.times()), seq![], r.shown()),
    {
        let dates = Differ::local_times(execs);
        proof {
            reveal_strlit("");
            assert(""@ =~= Seq::<char>::empty());
        }
        let filtered = Differ::compute_filtered_indices(execs, &dates, "");
        let r = SelectionState {
            filter: Vec::new(),
            selected_ids: Vec::new(),
            current: 0,
            offset: 0,
            help: false,
            preview: false,
            pending: None,
            message: None,
            filtered,
            dates,
            stderr: false,
        };
        assert(r.model().chosen =~= seq![]);
        assert(r.model().filter =~= seq![]);
        r
    }

    /// The filter as text.
    pub fn filter_text(&self) -> (r: String)
        ensures
            r@ == self.model().filter,
    {
        let r = string_of(&self.filter, 0, self.filter.len());
        assert(self.filter@.subrange(0, self.filter@.len() as int) =~= self.filter@);
        r
    }

    /// The ids of the chosen runs.
    pub fn selected_ids(&self) -> (r: &Vec<String>)
        ensures
            r@.map_values(|s: String| s@) == self.model().chosen,
    {
        &self.selected_ids
    }

    /// The cursor's position in the filtered list.
    pub fn current_selection(&self) -> (r: usize)
        ensures
            r == self.model().cur,
    {
        self.current
    }

    /// How far the preview is scrolled.
    pub fn preview_offset(&self) -> (r: u16)
        ensures
            r == self.model().offset,
    {
        self.offset
    }

    /// Sets the preview scroll (the drawing clamps it to the content).
    pub fn set_preview_offset(&mut self, offset: u16)
        ensures
            final(self).model() == (SelView { offset: offset as int, ..old(self).model() }),
            final(self).shown() == old(self).shown(),
            final(self).times() == old(self).times(),
            forall|n: int| old(self).fits(n) ==> #[trigger] final(self).fits(n),
    {
        self.offset = offset;
    }

    /// Whether the help is shown.
    pub fn show_help(&self) -> (r: bool)
        ensures
            r == self.model().help,
    {
        self.help
    }

    /// Whether the preview has the focus.
    pub fn preview_focused(&self) -> (r: bool)
        ensures
            r == self.model().preview,
    {
        self.preview
    }

    /// Whether the preview shows standard error alone.
    pub fn stderr_shown(&self) -> (r: bool)
        ensures
            r == self.model().stderr,
    {
        self.stderr
    }

    /// The footer message.
    pub fn last_action(&self) -> (r: Option<&str>)
        ensures
            match r {
                Some(s) => self.model().message == Some(s@),
                None => self.model().message is None,
            },
    {
        match &self.message {
            Some(m) => Some(m.as_str()),
            None => None,
        }
    }

    /// The positions of the shown runs.
    pub fn filtered(&self) -> (r: &Vec<usize>)
        ensures
            r@ == self.shown(),
    {
        &self.filtered
    }

    /// The runs' times as shown.
    pub fn dates(&self) -> (r: &Vec<String>)
        ensures
            r@ == self.times(),
    {
        &self.dates
    }

    /// The position (among the runs) of the run under the cursor.
    pub fn target(&self) -> (r: Option<usize>)
        ensures
            match r {
                Some(i) => 0 <= self.model().cur < self.shown().len() && i == self.shown()[self.model().cur],
                None => !(0 <= self.model().cur < self.shown().len()),
            },
    {
        if self.current < self.filtered.len() {
            Some(self.filtered[self.current])
        } else {
            None
        }
    }

    /// Drops a pending deletion with its message.
    fn clear_delete_state(&mut self)
        ensures
            final(self).model() == cleared(old(self).model()),
            final(self).filter == old(self).filter,
            final(self).selected_ids == old(self).selected_ids,
            final(self).current == old(self).current,
            final(self).offset == old(self).offset,
            final(self).help == old(self).help,
            final(self).preview == old(self).preview,
            final(self).filtered == old(self).filtered,
            final(self).dates == old(self).dates,
            final(self).stderr == old(self).stderr,
    {
        if self.pending.is_some() {
            self.pending = None;
            self.message = None;
        }
    }

    /// Computes the shown runs for the current filter.
    fn refilter(&mut self, execs: &Vec<CommandExecution>)
        requires
            old(self).dates@.len() == execs@.len(),
            score_fits(bytes_of(old(self).filter@)),
        ensures
            final(self).model() == old(self).model(),
            final(self).dates == old(self).dates,
            final(self).filter == old(self).filter,
            final(self).current == old(self).current,
            final(self).selected_ids == old(self).selected_ids,
            final(self).stderr == old(self).stderr,
            filtered_ok(search_texts(execs@, final(self).times()), final(self).model().filter, final(self).shown()),
            forall|i: int| 0 <= i < final(self).filtered@.len() ==> (#[trigger] final(self).filtered@[i]) < execs@.len(),
    {
        let f = string_of(&self.filter, 0, self.filter.len());
        assert(self.filter@.subrange(0, self.filter@.len() as int) =~= self.filter@);
        self.filtered = Differ::compute_filtered_indices(execs, &self.dates, f.as_str());
        proof {
            crate::groups::lemma_filtered_bounds(search_texts(execs@, self.dates@), self.filter@, self.filtered@);
        }
    }
}

/// A text's UTF-8 encoding takes at most four bytes per character.
pub proof fn lemma_utf8_len(s: Seq<char>)
    ensures
        bytes_of(s).len() <= 4 * s.len(),
    decreases s.len(),
{
    if s.len() > 0 {
        lemma_utf8_len(s.drop_first());
    }
}

/// One more character typed into filter `f` still leaves the match score
/// (`1000 + 10` per byte of the filter) within `i64`: a character takes at
/// most four bytes of UTF-8.
pub open spec fn room_to_type(f: Seq<char>) -> bool {
    1000 + 10 * (bytes_of(f).len() + 4) <= i64::MAX
}

/// Whether a filter can be scored: its match score stays within `i64`.
pub fn scorable(f: &str) -> (r: bool)
    ensures
        r == score_fits(bytes_of(f@)),
{
    let n = f.as_bytes().len() as u64;
    n <= 922337203685477480u64
}

/// Whether one more character can be typed into filter `f` (see
/// `room_to_type`).
pub fn has_room_to_type(f: &str) -> (r: bool)
    ensures
        r == room_to_type(f@),
{
    let n = f.as_bytes().len() as u64;
    n <= 922337203685477476u64
}

/// A filter made from `f` by typing one character, or by cutting it to a
/// prefix, can be scored when `f` has room to type.
pub proof fn lemma_filter_fits(f: Seq<char>, s: Seq<char>)
    requires
        room_to_type(f),
        s.len() <= f.len() ==> s == f.take(s.len() as int),
        s.len() > f.len() ==> s == f.push(s.last()),
    ensures
        score_fits(bytes_of(s)),
{
    if s.len() <= f.len() {
        crate::text::lemma_encode_concat(s, f.skip(s.len() as int));
        assert(s + f.skip(s.len() as int) =~= f);
    } else {
        crate::text::lemma_encode_concat(f, seq![s.last()]);
        assert(f + seq![s.last()] =~= s);
        lemma_utf8_len(seq![s.last()]);
    }
}

/// The state after a key: the fields `next_view` speaks of, with the other
/// fields kept; `shown` is recomputed when the filter changed.
pub open spec fn key_done(
    o: SelectionState,
    f: SelectionState,
    k: KeyPress,
    execs: Seq<CommandExecution>,
    h: Option<u16>,
    can_delete: bool,
    i18n: I18n,
    r: Step,
) -> bool {
    let nv = next_view(o.model(), k, o.shown().len() as int, o.target_of(execs), h, can_delete, i18n);
    &&& f.model() == nv.0
    &&& r == nv.1
    &&& f.times() == o.times()
    &&& f.fits(execs.len() as int)
    &&& nv.2 ==> filtered_ok(search_texts(execs, f.times()), nv.0.filter, f.shown())
    &&& !nv.2 ==> f.shown() == o.shown()
}

impl SelectionState {
    /// The number of characters in the filter.
    pub fn filter_len(&self) -> (r: usize)
        ensures
            r == self.model().filter.len(),
    {
        self.filter.len()
    }

    /// The run under the cursor, with its id and time.
    fn target_info(&self, execs: &Vec<CommandExecution>) -> (r: Option<(String, String)>)
        requires
            self.fits(execs@.len() as int),
        ensures
            match r {
                Some(t) => self.target_of(execs@) == Some((t.0@, t.1@)),
                None => self.target_of(execs@) is None,
            },
    {
        if self.current < self.filtered.len() {
            let oi = self.filtered[self.current];
            Some((execs[oi].record.record_id.clone(), self.dates[oi].clone()))
        } else {
            None
        }
    }

    /// Whether `id` is among the chosen, and where first.
    fn chosen_pos(&self, id: &str) -> (r: usize)
        ensures
            r == first_pos(self.model().chosen, id@, 0),
            r <= self.selected_ids@.len(),
    {
        let ghost ch = self.model().chosen;
        let mut i: usize = 0;
        while i < self.selected_ids.len()
            invariant
                ch == self.selected_ids@.map_values(|s: String| s@),
                i <= ch.len(),
                first_pos(ch, id@, 0) == first_pos(ch, id@, i as int),
            decreases ch.len() - i,
        {
            if same_text(self.selected_ids[i].as_str(), id) {
                assert(ch[i as int] == id@);
                return i;
            }
            i += 1;
        }
        i
    }

    /// Chooses or unchooses the run with id `id` (see `toggled`).
    fn toggle(&mut self, id: String)
        requires
            old(self).selected_ids@.len() <= 2,
            old(self).model().chosen.no_duplicates(),
        ensures
            final(self).model() == (SelView { chosen: toggled(old(self).model().chosen, id@), ..old(self).model() }),
            final(self).selected_ids@.len() <= 2,
            final(self).model().chosen.no_duplicates(),
            final(self).filtered == old(self).filtered,
            final(self).dates == old(self).dates,
            final(self).filter == old(self).filter,
            final(self).current == old(self).current,
            final(self).stderr == old(self).stderr,
    {
        let ghost ch = self.model().chosen;
        let ghost idv = id@;
        proof {
            lemma_toggle(ch, idv);
        }
        let p = self.chosen_pos(id.as_str());
        if p < self.selected_ids.len() {
            self.selected_ids.remove(p);
            assert(self.model().chosen =~= ch.remove(p as int));
        } else if self.selected_ids.len() < 2 {
            self.selected_ids.push(id);
            assert(self.model().chosen =~= ch.push(idv));
        }
    }

    /// The delete key (see `delete_request`).
    fn delete_request(&mut self, execs: &Vec<CommandExecution>, can_delete: bool, i18n: &I18n) -> (r: Step)
        requires
            old(self).fits(execs@.len() as int),
        ensures
            final(self).model() == delete_request(old(self).model(), old(self).target_of(execs@), can_delete, *i18n).0,
            r == delete_request(old(self).model(), old(self).target_of(execs@), can_delete, *i18n).1,
            final(self).filtered == old(self).filtered,
            final(self).dates == old(self).dates,
            final(self).fits(execs@.len() as int),
    {
        if !can_delete {
            return Step::Stay;
        }
        match self.target_info(execs) {
            None => {
                self.pending = None;
                self.message = Some(i18n.t("delete_nothing"));
                Step::Redraw
            },
            Some((id, time)) => {
                let same = match &self.pending {
                    Some(p) => same_text(p.as_str(), id.as_str()),
                    None => false,
                };
                if same {
                    Step::Delete
                } else {
                    let mut args: Vec<&str> = Vec::new();
                    args.push(time.as_str());
                    let m = i18n.t_format("delete_confirm_status", args.as_slice());
                    assert(args@.map_values(|a: &str| a@) =~= seq![time@]);
                    self.pending = Some(id);
                    self.message = Some(m);
                    Step::Redraw
                }
            },
        }
    }
}

/// Rows a page moves the cursor.
fn list_page_of(h: Option<u16>) -> (r: usize)
    ensures
        r == list_page(h),
{
    match h {
        Some(x) => if x >= 6 {
            (x - 6) as usize
        } else {
            0
        },
        None => 10,
    }
}

/// Rows a page scrolls the preview.
fn view_page_of(h: Option<u16>) -> (r: u16)
    ensures
        r == view_page(h),
{
    match h {
        Some(x) => if x >= 4 {
            x - 4
        } else {
            0
        },
        None => 10,
    }
}

/// Rows half a page scrolls the preview.
fn half_page_of(h: Option<u16>) -> (r: u16)
    ensures
        r == half_page(h),
{
    match h {
        Some(x) => x / 2,
        None => 5,
    }
}

/// `a - b`, not below zero.
fn down16(a: u16, b: u16) -> (r: u16)
    ensures
        r == sat_down(a as int, b as int),
{
    if a >= b {
        a - b
    } else {
        0
    }
}

/// `a + b`, not above the largest `u16`.
fn up16(a: u16, b: u16) -> (r: u16)
    ensures
        r == sat_up(a as int, b as int),
{
    if a as u32 + b as u32 <= 65535 {
        a + b
    } else {
        65535
    }
}

impl SelectionState {
    /// A key while the list has the focus (see `list_key`).
    #[verifier::rlimit(40)]
    fn list_key(
        &mut self,
        k: KeyPress,
        execs: &Vec<CommandExecution>,
        h: Option<u16>,
        i18n: &I18n,
    ) -> (r: (Step, bool))
        requires
            old(self).fits(execs@.len() as int),
            room_to_type(old(self).model().filter),
            !old(self).model().preview,
        ensures
            ({
                let nv = list_key(
                    old(self).model(),
                    cleared(old(self).model()),
                    k,
                    old(self).shown().len() as int,
                    old(self).target_of(execs@),
                    h,
                    *i18n,
                );
                &&& final(self).model() == nv.0
                &&& r.0 == nv.1
                &&& r.1 == nv.2
                &&& final(self).times() == old(self).times()
                &&& final(self).fits(execs@.len() as int)
                &&& nv.2 ==> filtered_ok(search_texts(execs@, final(self).times()), nv.0.filter, final(self).shown())
                &&& !nv.2 ==> final(self).shown() == old(self).shown()
            }),
    {
        let ghost o = self.model();
        let ghost t = self.target_of(execs@);
        let n = self.filtered.len();
        let key = k.key;
        if key == Key::Left || key == Key::Right {
            self.stderr = !self.stderr;
            self.offset = 0;
            return (Step::Redraw, false);
        }
        if key == Key::Up || key == Key::Char('k') || (key == Key::Char('p') && k.ctrl) {
            self.clear_delete_state();
            if self.current > 0 {
                self.current = self.current - 1;
                self.offset = 0;
            }
            return (Step::Redraw, false);
        }
        if key == Key::Down || key == Key::Char('j') || (key == Key::Char('n') && k.ctrl) {
            self.clear_delete_state();
            if self.current + 1 < n {
                self.current = self.current + 1;
                self.offset = 0;
            }
            return (Step::Redraw, false);
        }
        if key == Key::PageUp || (key == Key::Char('b') && k.ctrl) {
            self.clear_delete_state();
            let page = list_page_of(h);
            self.current = if self.current >= page {
                self.current - page
            } else {
                0
            };
            self.offset = 0;
            return (Step::Redraw, false);
        }
        if key == Key::PageDown || (key == Key::Char('f') && k.ctrl) {
            self.clear_delete_state();
            if n > 0 {
                let page = list_page_of(h);
                self.current = if page <= (n - 1) - self.current {
                    self.current + page
                } else {
                    n - 1
                };
                self.offset = 0;
                return (Step::Redraw, false);
            }
            return (Step::Stay, false);
        }
        if (key == Key::Home || key == Key::Char('a')) && k.ctrl {
            self.clear_delete_state();
            self.current = 0;
            self.offset = 0;
            return (Step::Redraw, false);
        }
        if (key == Key::End || key == Key::Char('e')) && k.ctrl {
            self.clear_delete_state();
            if n > 0 {
                self.current = n - 1;
                self.offset = 0;
                return (Step::Redraw, false);
            }
            return (Step::Stay, false);
        }
        if key == Key::Tab || key == Key::BackTab || key == Key::Char(' ') || key == Key::Enter {
            self.clear_delete_state();
            if key == Key::Enter && self.selected_ids.len() == 2 {
                return (Step::Finish, false);
            }
            match self.target_info(execs) {
                None => {
                    return (Step::Stay, false);
                },
                Some((id, _time)) => {
                    if key != Key::Tab {
                        let p = self.chosen_pos(id.as_str());
                        if p < self.selected_ids.len() {
                            self.toggle(id);
                            self.message = None;
                        } else if self.selected_ids.len() < 2 {
                            let will_complete = self.selected_ids.len() + 1 == 2;
                            self.toggle(id);
                            if will_complete {
                                self.message = Some(i18n.t("selection_complete"));
                            } else {
                                self.message = None;
                            }
                        } else {
                            self.message = Some(i18n.t("selection_limit_reached"));
                        }
                    }
                    self.preview = true;
                    self.offset = 0;
                    return (Step::Redraw, false);
                },
            }
        }
        if let Key::Char(ch) = key {
            if !k.ctrl && !k.alt {
                self.clear_delete_state();
                let ghost f0 = self.filter@;
                self.filter.push(ch);
                self.current = 0;
                self.offset = 0;
                self.message = None;
                proof {
                    lemma_filter_fits(f0, self.filter@);
                }
                self.refilter(execs);
                return (Step::Redraw, true);
            }
        }
        if key == Key::Backspace {
            self.clear_delete_state();
            if self.filter.len() > 0 {
                let ghost f0 = self.filter@;
                self.filter.pop();
                self.current = 0;
                self.offset = 0;
                self.message = None;
                proof {
                    assert(self.filter@ =~= f0.take(self.filter@.len() as int));
                    lemma_filter_fits(f0, self.filter@);
                }
                self.refilter(execs);
                return (Step::Redraw, true);
            }
            return (Step::Stay, false);
        }
        if key == Key::Delete && !k.ctrl && !k.alt {
            self.clear_delete_state();
            if self.filter.len() > 0 {
                let ghost f0 = self.filter@;
                self.filter.clear();
                self.current = 0;
                self.offset = 0;
                self.message = None;
                proof {
                    assert(self.filter@ =~= f0.take(0));
                    lemma_filter_fits(f0, self.filter@);
                }
                self.refilter(execs);
                return (Step::Redraw, true);
            }
            return (Step::Stay, false);
        }
        if key == Key::Char('u') && k.ctrl {
            self.clear_delete_state();
            self.filter.clear();
            self.current = 0;
            self.offset = 0;
            self.message = None;
            return (Step::Reload, false);
        }
        if key == Key::Char('w') && k.ctrl {
            self.clear_delete_state();
            self.drop_last_word();
            self.current = 0;
            self.offset = 0;
            self.message = None;
            return (Step::Reload, false);
        }
        (Step::Stay, false)
    }

    /// Removes trailing whitespace from the filter, then the word before it.
    fn drop_last_word(&mut self)
        ensures
            final(self).filter@ == without_last_word(old(self).filter@),
            final(self).selected_ids == old(self).selected_ids,
            final(self).current == old(self).current,
            final(self).offset == old(self).offset,
            final(self).help == old(self).help,
            final(self).preview == old(self).preview,
            final(self).pending == old(self).pending,
            final(self).message == old(self).message,
            final(self).filtered == old(self).filtered,
            final(self).dates == old(self).dates,
            final(self).stderr == old(self).stderr,
    {
        let ghost s = self.filter@;
        proof {
            crate::text::lemma_trail_ws(s);
        }
        while self.filter.len() > 0 && is_whitespace(self.filter[self.filter.len() - 1])
            invariant
                self.filter@.len() >= s.len() - crate::text::trail_ws(s),
                self.filter@.len() <= s.len(),
                self.filter@ == s.take(self.filter@.len() as int),
                crate::text::trail_ws(s) <= s.len(),
                forall|q: int| s.len() - crate::text::trail_ws(s) <= q < s.len() ==> is_ws(#[trigger] s[q]),
                crate::text::trail_ws(s) < s.len() ==> !is_ws(s[s.len() - crate::text::trail_ws(s) - 1]),
                self.selected_ids == old(self).selected_ids,
                self.current == old(self).current,
                self.offset == old(self).offset,
                self.help == old(self).help,
                self.preview == old(self).preview,
                self.pending == old(self).pending,
                self.message == old(self).message,
                self.filtered == old(self).filtered,
                self.dates == old(self).dates,
                self.stderr == old(self).stderr,
            decreases self.filter@.len(),
        {
            proof {
                if self.filter@.len() == s.len() - crate::text::trail_ws(s) {
                    assert(self.filter@[self.filter@.len() - 1] == s[s.len() - crate::text::trail_ws(s) - 1]);
                }
            }
            self.filter.pop();
            assert(self.filter@ =~= s.take(self.filter@.len() as int));
        }
        let ghost t = crate::text::trim_end(s);
        proof {
            if self.filter@.len() > s.len() - crate::text::trail_ws(s) {
                assert(self.filter@[self.filter@.len() - 1] == s[self.filter@.len() - 1]);
                assert(is_ws(self.filter@[self.filter@.len() - 1]));
            }
            assert(self.filter@ =~= t);
            lemma_trail_word(t);
        }
        while self.filter.len() > 0 && !is_whitespace(self.filter[self.filter.len() - 1])
            invariant
                self.filter@.len() >= t.len() - trail_word(t),
                self.filter@.len() <= t.len(),
                self.filter@ == t.take(self.filter@.len() as int),
                trail_word(t) <= t.len(),
                forall|q: int| t.len() - trail_word(t) <= q < t.len() ==> !is_ws(#[trigger] t[q]),
                trail_word(t) < t.len() ==> is_ws(t[t.len() - trail_word(t) - 1]),
                self.selected_ids == old(self).selected_ids,
                self.current == old(self).current,
                self.offset == old(self).offset,
                self.help == old(self).help,
                self.preview == old(self).preview,
                self.pending == old(self).pending,
                self.message == old(self).message,
                self.filtered == old(self).filtered,
                self.dates == old(self).dates,
                self.stderr == old(self).stderr,
            decreases self.filter@.len(),
        {
            proof {
                if self.filter@.len() == t.len() - trail_word(t) {
                    assert(self.filter@[self.filter@.len() - 1] == t[t.len() - trail_word(t) - 1]);
                }
            }
            self.filter.pop();
            assert(self.filter@ =~= t.take(self.filter@.len() as int));
        }
        proof {
            if self.filter@.len() > t.len() - trail_word(t) {
                assert(self.filter@[self.filter@.len() - 1] == t[self.filter@.len() - 1]);
                assert(!is_ws(self.filter@[self.filter@.len() - 1]));
            }
            assert(self.filter@ =~= without_last_word(s));
        }
    }
}

/// `trail_word` counts the non-whitespace run at the end.
proof fn lemma_trail_word(s: Seq<char>)
    ensures
        trail_word(s) <= s.len(),
        forall|k: int| s.len() - trail_word(s) <= k < s.len() ==> !is_ws(#[trigger] s[k]),
        trail_word(s) < s.len() ==> is_ws(s[s.len() - trail_word(s) - 1]),
    decreases s.len(),
{
    if s.len() > 0 && !is_ws(s.last()) {
        lemma_trail_word(s.drop_last());
        assert forall|k: int| s.len() - trail_word(s) <= k < s.len() implies !is_ws(#[trigger] s[k]) by {
            if k < s.len() - 1 {
                assert(s[k] == s.drop_last()[k]);
            }
        }
        if trail_word(s) < s.len() {
            assert(s[s.len() - trail_word(s) - 1] == s.drop_last()[s.drop_last().len() - trail_word(
                s.drop_last(),
            ) - 1]);
        }
    }
}

/// The first position of a run with id `id` (the length when none has).
pub open spec fn run_with_id(execs: Seq<CommandExecution>, id: Seq<char>, k: int) -> int
    decreases execs.len() - k,
{
    if k < 0 || k >= execs.len() {
        execs.len() as int
    } else if execs[k].record.record_id@ == id {
        k
    } else {
        run_with_id(execs, id, k + 1)
    }
}

/// `r` is the chosen pair: with two chosen ids that both name runs, those
/// runs (the first run with each id), oldest first; otherwise nothing.
pub open spec fn outcome_ok(chosen: Seq<Seq<char>>, execs: Seq<CommandExecution>, r: Seq<CommandExecution>) -> bool {
    if chosen.len() == 2 && run_with_id(execs, chosen[0], 0) < execs.len() && run_with_id(execs, chosen[1], 0)
        < execs.len() {
        let pair = seq![execs[run_with_id(execs, chosen[0], 0)], execs[run_with_id(execs, chosen[1], 0)]];
        exists|src: Seq<int>| #[trigger] executions_sorted(pair, r, src, false)
    } else {
        r.len() == 0
    }
}

impl SelectionState {
    /// A key while the preview has the focus (see `preview_key`).
    fn preview_key(&mut self, k: KeyPress, execs: &Vec<CommandExecution>, h: Option<u16>) -> (r: Step)
        requires
            old(self).fits(execs@.len() as int),
        ensures
            ({
                let nv = preview_key(old(self).model(), k, old(self).shown().len() as int, old(self).target_of(execs@), h);
                &&& final(self).model() == nv.0
                &&& r == nv.1
                &&& final(self).filtered == old(self).filtered
                &&& final(self).dates == old(self).dates
                &&& final(self).fits(execs@.len() as int)
            }),
    {
        let key = k.key;
        let n = self.filtered.len();
        if key == Key::Up || key == Key::Char('k') {
            if k.alt {
                self.offset = down16(self.offset, half_page_of(h));
            } else if k.ctrl || k.shift {
                self.offset = down16(self.offset, 1);
            } else if n > 0 {
                let previous = self.current;
                self.current = if self.current >= 1 {
                    self.current - 1
                } else {
                    0
                };
                self.preview = false;
                self.help = false;
                if self.current != previous {
                    self.offset = 0;
                }
            }
            return Step::Redraw;
        }
        if key == Key::Down || key == Key::Char('j') {
            if k.alt {
                self.offset = up16(self.offset, half_page_of(h));
            } else if k.ctrl || k.shift {
                self.offset = up16(self.offset, 1);
            } else if n > 0 {
                if self.current + 1 < n {
                    self.current = self.current + 1;
                    self.offset = 0;
                }
                self.preview = false;
                self.help = false;
            }
            return Step::Redraw;
        }
        if key == Key::PageUp || key == Key::Backspace || key == Key::Char('b') {
            self.offset = down16(self.offset, view_page_of(h));
            return Step::Redraw;
        }
        if key == Key::PageDown || key == Key::Char(' ') || key == Key::Char('f') {
            self.offset = up16(self.offset, view_page_of(h));
            return Step::Redraw;
        }
        if key == Key::Char('d') {
            self.offset = up16(self.offset, half_page_of(h));
            return Step::Redraw;
        }
        if key == Key::Char('u') {
            self.offset = down16(self.offset, half_page_of(h));
            return Step::Redraw;
        }
        if key == Key::Home || (key == Key::Char('g') && !k.ctrl && !k.alt) {
            self.offset = 0;
            return Step::Redraw;
        }
        if key == Key::End || (key == Key::Char('G') && !k.ctrl && !k.alt) {
            self.offset = 65535;
            return Step::Redraw;
        }
        if (key == Key::Char('?') || key == Key::Char('h')) && !k.ctrl {
            self.help = !self.help;
            return Step::Redraw;
        }
        if key == Key::Char('q') {
            self.preview = false;
            return Step::Redraw;
        }
        if key == Key::Char('Q') {
            self.selected_ids.clear();
            assert(self.model().chosen =~= seq![]);
            return Step::Finish;
        }
        if key == Key::Left || key == Key::Right || (key == Key::Char('o') && !k.ctrl && !k.alt) {
            self.stderr = !self.stderr;
            self.offset = 0;
            return Step::Redraw;
        }
        if key == Key::Enter {
            if self.selected_ids.len() == 2 {
                return Step::Finish;
            }
            match self.target_info(execs) {
                Some((id, _time)) => {
                    self.toggle(id);
                    return Step::Redraw;
                },
                None => {
                    return Step::Stay;
                },
            }
        }
        Step::Stay
    }

    /// What a key does (see `next_view`); `height` is the terminal's, when
    /// known, and `can_delete` whether runs can be deleted here.
    pub fn on_key(
        &mut self,
        k: KeyPress,
        execs: &Vec<CommandExecution>,
        height: Option<u16>,
        can_delete: bool,
        i18n: &I18n,
    ) -> (r: Step)
        requires
            old(self).fits(execs@.len() as int),
            room_to_type(old(self).model().filter),
        ensures
            key_done(*old(self), *final(self), k, execs@, height, can_delete, *i18n, r),
    {
        let ghost o = *self;
        if (k.ctrl && (k.key == Key::Char('c') || k.key == Key::Char('d'))) || k.key == Key::Char('\u{3}')
            || k.key == Key::Char('\u{4}') {
            self.selected_ids.clear();
            assert(self.model().chosen =~= seq![]);
            return Step::Finish;
        }
        if k.key == Key::Esc {
            if self.preview {
                if self.help {
                    self.help = false;
                } else {
                    self.preview = false;
                }
                return Step::Redraw;
            }
            self.selected_ids.clear();
            assert(self.model().chosen =~= seq![]);
            return Step::Finish;
        }
        if (k.key == Key::Char('x') && k.ctrl) || (k.key == Key::Backspace && k.shift && can_delete) {
            return self.delete_request(execs, can_delete, i18n);
        }
        if k.key == Key::Backspace && k.shift {
            if !self.preview && self.filter.len() > 0 {
                self.clear_delete_state();
                let ghost f0 = self.filter@;
                self.filter.pop();
                self.current = 0;
                self.offset = 0;
                self.message = None;
                proof {
                    assert(self.filter@ =~= f0.take(self.filter@.len() as int));
                    lemma_filter_fits(f0, self.filter@);
                }
                self.refilter(execs);
                return Step::Redraw;
            }
            return Step::Stay;
        }
        if !self.preview {
            let (st, _refiltered) = self.list_key(k, execs, height, i18n);
            return st;
        }
        self.preview_key(k, execs, height)
    }

    /// After the caller tried to delete the run under the cursor: on
    /// success the run leaves the chosen pair, a note says it went, and the
    /// runs are to be loaded again; on failure it stays pending with the
    /// error shown.
    pub fn delete_done(&mut self, execs: &Vec<CommandExecution>, failure: Option<&str>, i18n: &I18n) -> (r: Step)
        requires
            old(self).fits(execs@.len() as int),
        ensures
            final(self).fits(execs@.len() as int),
            final(self).shown() == old(self).shown(),
            final(self).times() == old(self).times(),
            match old(self).target_of(execs@) {
                None => final(self).model() == old(self).model() && r == Step::Stay,
                Some(t) => match failure {
                    None => r == Step::Reload && final(self).model() == (SelView {
                        chosen: old(self).model().chosen.filter(|x: Seq<char>| x != t.0),
                        pending: None,
                        message: Some(fill(i18n.text_for("delete_success_status"@), seq![t.1])),
                        ..old(self).model()
                    }),
                    Some(e) => r == Step::Redraw && final(self).model() == (SelView {
                        pending: Some(t.0),
                        message: Some(fill(i18n.text_for("delete_failed_status"@), seq![e@])),
                        ..old(self).model()
                    }),
                },
            },
    {
        match self.target_info(execs) {
            None => Step::Stay,
            Some((id, time)) => match failure {
                None => {
                    let ghost ch = self.model().chosen;
                    let mut kept: Vec<String> = Vec::new();
                    let mut i: usize = 0;
                    while i < self.selected_ids.len()
                        invariant
                            i <= self.selected_ids@.len(),
                            self.selected_ids@.len() <= 2,
                            ch == self.selected_ids@.map_values(|s: String| s@),
                            kept@.map_values(|s: String| s@) == ch.take(i as int).filter(|x: Seq<char>| x != id@),
                            kept@.len() <= i,
                        decreases self.selected_ids@.len() - i,
                    {
                        let keep = !same_text(self.selected_ids[i].as_str(), id.as_str());
                        proof {
                            assert(ch.take(i + 1) =~= ch.take(i as int).push(ch[i as int]));
                            ch.take(i as int).lemma_filter_push(ch[i as int], |x: Seq<char>| x != id@);
                        }
                        if keep {
                            let ghost before = kept@.map_values(|s: String| s@);
                            kept.push(self.selected_ids[i].clone());
                            assert(kept@.map_values(|s: String| s@) =~= before.push(ch[i as int]));
                        }
                        i += 1;
                    }
                    assert(ch.take(i as int) =~= ch);
                    proof {
                        lemma_filter_unique(ch, |x: Seq<char>| x != id@);
                    }
                    self.selected_ids = kept;
                    self.pending = None;
                    let mut args: Vec<&str> = Vec::new();
                    args.push(time.as_str());
                    let m = i18n.t_format("delete_success_status", args.as_slice());
                    assert(args@.map_values(|a: &str| a@) =~= seq![time@]);
                    self.message = Some(m);
                    Step::Reload
                },
                Some(e) => {
                    let mut args: Vec<&str> = Vec::new();
                    args.push(e);
                    let m = i18n.t_format("delete_failed_status", args.as_slice());
                    assert(args@.map_values(|a: &str| a@) =~= seq![e@]);
                    self.pending = Some(id);
                    self.message = Some(m);
                    Step::Redraw
                },
            },
        }
    }

    /// The runs as loaded again: their times and the shown runs are
    /// computed anew for the current filter; the preview goes to its top;
    /// after a deletion the cursor stays where it was, as far as the list
    /// still reaches.
    pub fn reloaded(&mut self, execs: &Vec<CommandExecution>)
        requires
            all_runs_valid(execs@),
            score_fits(bytes_of(old(self).model().filter)),
            old(self).model().chosen.len() <= 2,
            old(self).model().chosen.no_duplicates(),
        ensures
            final(self).fits(execs@.len() as int),
            filtered_ok(search_texts(execs@, final(self).times()), final(self).model().filter, final(self).shown()),
            final(self).model() == (SelView {
                cur: if final(self).shown().len() == 0 {
                    0
                } else if old(self).model().cur >= final(self).shown().len() {
                    final(self).shown().len() - 1
                } else {
                    old(self).model().cur
                },
                offset: 0,
                ..old(self).model()
            }),
    {
        self.dates = Differ::local_times(execs);
        self.refilter(execs);
        let n = self.filtered.len();
        if n == 0 {
            self.current = 0;
        } else if self.current >= n {
            self.current = n - 1;
        }
        self.offset = 0;
    }

    /// The chosen pair (see `outcome_ok`).
    pub fn outcome(&self, execs: &Vec<CommandExecution>) -> (r: Vec<CommandExecution>)
        ensures
            outcome_ok(self.model().chosen, execs@, r@),
    {
        let ghost ch = self.model().chosen;
        if self.selected_ids.len() != 2 {
            return Vec::new();
        }
        let a = Self::find_run(execs, self.selected_ids[0].as_str());
        let b = Self::find_run(execs, self.selected_ids[1].as_str());
        proof {
            assert(ch[0] == self.selected_ids@[0]@);
            assert(ch[1] == self.selected_ids@[1]@);
        }
        if a < execs.len() && b < execs.len() {
            let mut pair: Vec<CommandExecution> = Vec::new();
            pair.push(execs[a].duplicate());
            pair.push(execs[b].duplicate());
            let ghost pv = pair@;
            let r = sort_executions(pair, false);
            proof {
                assert(pv =~= seq![execs@[a as int], execs@[b as int]]);
                let src = choose|src: Seq<int>| executions_sorted(pv, r@, src, false);
                assert(executions_sorted(pv, r@, src, false));
            }
            return r;
        }
        Vec::new()
    }

    /// The first position of a run with id `id` (the length when none has).
    fn find_run(execs: &Vec<CommandExecution>, id: &str) -> (r: usize)
        ensures
            r == run_with_id(execs@, id@, 0),
    {
        let mut i: usize = 0;
        while i < execs.len()
            invariant
                i <= execs@.len(),
                run_with_id(execs@, id@, 0) == run_with_id(execs@, id@, i as int),
            decreases execs@.len() - i,
        {
            if same_text(execs[i].record.record_id.as_str(), id) {
                return i;
            }
            i += 1;
        }
        i
    }
}

} // verus!
