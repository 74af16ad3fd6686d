//! The decisions of the pickers that choose one entry from a filtered
//! list: a command to clean, a file to clean, or a command to compare.
//! Drawing and reading keys are done by the caller.

use vstd::prelude::*;
use crate::fuzzy_matcher::{bytes_of, score_fits};
use crate::groups::{filtered_ok, lemma_filtered_bounds, rank_positions};
use crate::numbers::{all_digits_text, parse_usize, parsed_usize};
use crate::text::{string_of, trim, trim_str};
use crate::tui::{lemma_filter_fits, room_to_type, Key, KeyPress};

verus! {

/// What the caller does after a key in a picker.
#[derive(Debug, Clone, Copy, PartialEq, Eq, Structural)]
pub enum Pick {
    /// Nothing changed.
    Stay,
    /// Draw again.
    Redraw,
    /// Leave without a choice.
    Cancel,
    /// Leave with the entry at this position.
    Chosen(usize),
}

/// A picker's filter and cursor, as the contracts speak of them.
pub struct PickView {
    pub filter: Seq<char>,
    pub cur: int,
}

/// The list picker: an entry is found by typing; `k`/`j` and the arrows
/// move, Enter picks, Escape or Ctrl-C leaves.
pub struct ListPicker {
    texts: Vec<String>,
    filter: Vec<char>,
    current: usize,
    filtered: Vec<usize>,
}

/// `a - 1`, not below zero.
pub open spec fn dec0(a: int) -> int {
    if a >= 1 {
        a - 1
    } else {
        0
    }
}

/// How a key changes the list picker, given the number of shown entries
/// `n` and the entry under the cursor. The flag says that the filter
/// changed and the shown entries are computed anew; the cursor given for
/// a shortened filter is then brought back into the new list.
pub open spec fn list_pick_next(v: PickView, k: KeyPress, n: int, under: Option<int>) -> (PickView, Pick, bool) {
    let key = k.key;
    if key == Key::Esc {
        (v, Pick::Cancel, false)
    } else if key == Key::Up || key == Key::Char('k') {
        (PickView { cur: dec0(v.cur), ..v }, Pick::Redraw, false)
    } else if key == Key::Down || key == Key::Char('j') {
        (PickView { cur: if v.cur + 1 < n { v.cur + 1 } else { v.cur }, ..v }, Pick::Redraw, false)
    } else if key == Key::Enter {
        match under {
            Some(i) => (v, Pick::Chosen(i as usize), false),
            None => (v, Pick::Stay, false),
        }
    } else if key == Key::Backspace || key == Key::Delete {
        (PickView { filter: if v.filter.len() > 0 { v.filter.drop_last() } else { v.filter }, ..v }, Pick::Redraw, true)
    } else if (key matches Key::Char(_)) && !k.ctrl {
        (PickView { filter: v.filter.push(key->Char_0), cur: 0 }, Pick::Redraw, true)
    } else if key == Key::Char('c') && k.ctrl {
        (v, Pick::Cancel, false)
    } else {
        (v, Pick::Stay, false)
    }
}

impl ListPicker {
    /// The filter and cursor.
    pub closed spec fn model(&self) -> PickView {
        PickView { filter: self.filter@, cur: self.current as int }
    }

    /// The texts the entries are found by.
    pub closed spec fn texts_view(&self) -> Seq<Seq<char>> {
        self.texts@.map_values(|s: String| s@)
    }

    /// The positions of the shown entries, best first.
    pub closed spec fn shown(&self) -> Seq<usize> {
        self.filtered@
    }

    /// The shown positions name entries and the cursor is on a shown entry
    /// or at the top.
    pub closed spec fn fits(&self) -> bool {
        &&& forall|i: int| 0 <= i < self.filtered@.len() ==> (#[trigger] self.filtered@[i]) < self.texts@.len()
        &&& (self.current == 0 || self.current < self.filtered@.len())
    }

    /// The position of the entry under the cursor.
    pub open spec fn under(&self) -> Option<int> {
        if 0 <= self.model().cur < self.shown().len() {
            Some(self.shown()[self.model().cur] as int)
        } else {
            None
        }
    }

    /// A picker over entries found by `texts`: empty filter, every entry
    /// shown, the cursor on the first.
    pub fn new(texts: Vec<String>) -> (r: Self)
        ensures
            r.fits(),
            r.model() == (PickView { filter: seq![], cur: 0 }),
            r.texts_view() == texts@.map_values(|s: String| s@),
            filtered_ok(r.texts_view(), seq![], r.shown()),
    {
        let mut t: Vec<String> = Vec::new();
        let mut i: usize = 0;
        while i < texts.len()
            invariant
                i <= texts@.len(),
                t@ == texts@.take(i as int),
            decreases texts@.len() - i,
        {
            t.push(texts[i].clone());
            i += 1;
            assert(t@ =~= texts@.take(i as int));
        }
        assert(texts@.take(i as int) =~= texts@);
        proof {
            reveal_strlit("");
            assert(""@ =~= Seq::<char>::empty());
        }
        let filtered = rank_positions(t, "");
        proof {
            lemma_filtered_bounds(texts@.map_values(|s: String| s@), seq![], filtered@);
        }
        let r = ListPicker { texts, filter: Vec::new(), current: 0, filtered };
        assert(r.model().filter =~= seq![]);
        r
    }

    /// The filter as text.
    pub fn filter_text(&self) -> (r: String)
        ensures
            r@ == self.model().filter,
    {
        let r = string_of(&self.filter, 0, self.filter.len());
        assert(self.filter@.subrange(0, self.filter@.len() as int) =~= self.filter@);
        r
    }

    /// The number of characters in the filter.
    pub fn filter_len(&self) -> (r: usize)
        ensures
            r == self.model().filter.len(),
    {
        self.filter.len()
    }

    /// The cursor.
    pub fn current_selection(&self) -> (r: usize)
        ensures
            r == self.model().cur,
    {
        self.current
    }

    /// The positions of the shown entries.
    pub fn filtered(&self) -> (r: &Vec<usize>)
        ensures
            r@ == self.shown(),
    {
        &self.filtered
    }

    /// Computes the shown entries for the filter.
    fn refilter(&mut self)
        requires
            score_fits(bytes_of(old(self).model().filter)),
        ensures
            final(self).model() == old(self).model(),
            final(self).texts == old(self).texts,
            filtered_ok(final(self).texts_view(), final(self).model().filter, final(self).shown()),
            forall|i: int| 0 <= i < final(self).filtered@.len() ==> (#[trigger] final(self).filtered@[i]) < final(self).texts@.len(),
    {
        let f = string_of(&self.filter, 0, self.filter.len());
        assert(self.filter@.subrange(0, self.filter@.len() as int) =~= self.filter@);
        let mut t: Vec<String> = Vec::new();
        let mut i: usize = 0;
        while i < self.texts.len()
            invariant
                i <= self.texts@.len(),
                t@ == self.texts@.take(i as int),
            decreases self.texts@.len() - i,
        {
            t.push(self.texts[i].clone());
            i += 1;
            assert(t@ =~= self.texts@.take(i as int));
        }
        assert(self.texts@.take(i as int) =~= self.texts@);
        self.filtered = rank_positions(t, f.as_str());
        proof {
            lemma_filtered_bounds(self.texts@.map_values(|s: String| s@), self.filter@, self.filtered@);
        }
    }

    /// What a key does (see `list_pick_next`); after a shortened filter
    /// the cursor moves back to the last shown entry when beyond it.
    pub fn on_key(&mut self, k: KeyPress) -> (r: Pick)
        requires
            old(self).fits(),
            room_to_type(old(self).model().filter),
        ensures
            final(self).fits(),
            final(self).texts_view() == old(self).texts_view(),
            ({
                let nv = list_pick_next(old(self).model(), k, old(self).shown().len() as int, old(self).under());
                &&& r == nv.1
                &&& final(self).model().filter == nv.0.filter
                &&& nv.2 ==> filtered_ok(final(self).texts_view(), nv.0.filter, final(self).shown())
                &&& !nv.2 ==> final(self).shown() == old(self).shown() && final(self).model() == nv.0
                &&& (nv.2 && (k.key == Key::Backspace || k.key == Key::Delete)) ==> final(self).model().cur == (
                    if old(self).model().cur >= final(self).shown().len() {
                        dec0(final(self).shown().len() as int)
                    } else {
                        old(self).model().cur
                    })
                &&& (nv.2 && !(k.key == Key::Backspace || k.key == Key::Delete)) ==> final(self).model().cur == 0
            }),
    {
        let key = k.key;
        let n = self.filtered.len();
        if key == Key::Esc {
            return Pick::Cancel;
        }
        if key == Key::Up || key == Key::Char('k') {
            if self.current >= 1 {
                self.current = self.current - 1;
            }
            return Pick::Redraw;
        }
        if key == Key::Down || key == Key::Char('j') {
            if self.current + 1 < n {
                self.current = self.current + 1;
            }
            return Pick::Redraw;
        }
        if key == Key::Enter {
            if self.current < n {
                return Pick::Chosen(self.filtered[self.current]);
            }
            return Pick::Stay;
        }
        if key == Key::Backspace || key == Key::Delete {
            let ghost f0 = self.filter@;
            if self.filter.len() > 0 {
                self.filter.pop();
            }
            proof {
                assert(self.filter@ =~= f0.take(self.filter@.len() as int));
                lemma_filter_fits(f0, self.filter@);
            }
            self.refilter();
            let m = self.filtered.len();
            if self.current >= m {
                self.current = if m >= 1 {
                    m - 1
                } else {
                    0
                };
            }
            return Pick::Redraw;
        }
        if let Key::Char(c) = key {
            if !k.ctrl {
                let ghost f0 = self.filter@;
                self.filter.push(c);
                self.current = 0;
                proof {
                    lemma_filter_fits(f0, self.filter@);
                }
                self.refilter();
                return Pick::Redraw;
            }
        }
        if key == Key::Char('c') && k.ctrl {
            return Pick::Cancel;
        }
        Pick::Stay
    }
}

/// The command picker of the comparison flow: typing filters, a filter of
/// digits picks the command with that number, the list scrolls with the
/// cursor.
pub struct CommandPicker {
    texts: Vec<String>,
    filter: Vec<char>,
    current: usize,
    scroll: usize,
    filtered: Vec<usize>,
}

/// A key that leaves the command picker: Ctrl with `c`, `C`, `d` or `D`,
/// or the control characters of Ctrl-C and Ctrl-D.
pub open spec fn picker_exit(k: KeyPress) -> bool {
    let ctrl_char = k.key == Key::Char('\u{3}') || k.key == Key::Char('\u{4}');
    (k.ctrl || ctrl_char) && (k.key == Key::Char('c') || k.key == Key::Char('C') || k.key == Key::Char(
        'd',
    ) || k.key == Key::Char('D') || ctrl_char)
}

/// A key that deletes a character: Backspace, or the characters it may
/// arrive as (8 and 127).
pub open spec fn backspace_key(k: KeyPress) -> bool {
    k.key == Key::Backspace || k.key == Key::Char('\u{8}') || k.key == Key::Char('\u{7f}')
}

/// The entry Enter picks: with a filter of digits naming a shown entry's
/// number (its position plus one), that entry; else the one under the
/// cursor.
pub open spec fn enter_pick(filter: Seq<char>, shown: Seq<usize>, cur: int) -> int {
    let t = trim(filter);
    let by_number = t.len() > 0 && all_digits_text(t) && parsed_usize(t) is Some && parsed_usize(t)->0 > 0
        && exists|q: int| 0 <= q < shown.len() && shown[q] + 1 == parsed_usize(t)->0;
    if by_number {
        parsed_usize(t)->0 - 1
    } else {
        shown[cur] as int
    }
}

impl CommandPicker {
    /// The filter and cursor.
    pub closed spec fn model(&self) -> PickView {
        PickView { filter: self.filter@, cur: self.current as int }
    }

    /// The texts the entries are found by.
    pub closed spec fn texts_view(&self) -> Seq<Seq<char>> {
        self.texts@.map_values(|s: String| s@)
    }

    /// The positions of the shown entries, best first.
    pub closed spec fn shown(&self) -> Seq<usize> {
        self.filtered@
    }

    /// The first shown row of the list.
    pub closed spec fn first_row(&self) -> int {
        self.scroll as int
    }

    /// The shown positions name entries.
    pub closed spec fn fits(&self) -> bool {
        forall|i: int| 0 <= i < self.filtered@.len() ==> (#[trigger] self.filtered@[i]) < self.texts@.len()
    }

    /// A picker over entries found by `texts`.
    pub fn new(texts: Vec<String>) -> (r: Self)
        ensures
            r.fits(),
            r.model() == (PickView { filter: seq![], cur: 0 }),
            r.first_row() == 0,
            r.texts_view() == texts@.map_values(|s: String| s@),
    {
        let r = CommandPicker { texts, filter: Vec::new(), current: 0, scroll: 0, filtered: Vec::new() };
        assert(r.model().filter =~= seq![]);
        r
    }

    /// The filter as text.
    pub fn filter_text(&self) -> (r: String)
        ensures
            r@ == self.model().filter,
    {
        let r = string_of(&self.filter, 0, self.filter.len());
        assert(self.filter@.subrange(0, self.filter@.len() as int) =~= self.filter@);
        r
    }

    /// The number of characters in the filter.
    pub fn filter_len(&self) -> (r: usize)
        ensures
            r == self.model().filter.len(),
    {
        self.filter.len()
    }

    /// The cursor.
    pub fn current_selection(&self) -> (r: usize)
        ensures
            r == self.model().cur,
    {
        self.current
    }

    /// The first shown row.
    pub fn scroll_offset(&self) -> (r: usize)
        ensures
            r == self.first_row(),
    {
        self.scroll
    }

    /// The positions of the shown entries.
    pub fn filtered(&self) -> (r: &Vec<usize>)
        ensures
            r@ == self.shown(),
    {
        &self.filtered
    }

    /// Before drawing: the shown entries computed for the filter, the
    /// cursor brought back onto the list, and the list scrolled so that
    /// the cursor's row is among the `rows - 6` visible ones (at least 5).
    pub fn refresh(&mut self, rows: u16)
        requires
            score_fits(bytes_of(old(self).model().filter)),
        ensures
            final(self).fits(),
            final(self).texts_view() == old(self).texts_view(),
            final(self).model().filter == old(self).model().filter,
            filtered_ok(final(self).texts_view(), final(self).model().filter, final(self).shown()),
            final(self).model().cur == if final(self).shown().len() > 0 && old(self).model().cur >= final(self).shown().len() {
                final(self).shown().len() - 1
            } else {
                old(self).model().cur
            },
            ({
                let vp = if rows >= 11 { rows - 6 } else { 5 };
                let cur = final(self).model().cur;
                final(self).shown().len() > 0 ==> final(self).first_row() == if cur < old(self).first_row() {
                    cur
                } else if cur >= old(self).first_row() + vp {
                    cur + 1 - vp
                } else {
                    old(self).first_row()
                }
            }),
            final(self).shown().len() == 0 ==> final(self).first_row() == old(self).first_row(),
    {
        let f = string_of(&self.filter, 0, self.filter.len());
        assert(self.filter@.subrange(0, self.filter@.len() as int) =~= self.filter@);
        let mut t: Vec<String> = Vec::new();
        let mut i: usize = 0;
        while i < self.texts.len()
            invariant
                i <= self.texts@.len(),
                t@ == self.texts@.take(i as int),
            decreases self.texts@.len() - i,
        {
            t.push(self.texts[i].clone());
            i += 1;
            assert(t@ =~= self.texts@.take(i as int));
        }
        assert(self.texts@.take(i as int) =~= self.texts@);
        self.filtered = rank_positions(t, f.as_str());
        proof {
            lemma_filtered_bounds(self.texts@.map_values(|s: String| s@), self.filter@, self.filtered@);
        }
        let n = self.filtered.len();
        if n > 0 {
            if self.current >= n {
                self.current = n - 1;
            }
            let vp: usize = if rows >= 11 {
                (rows - 6) as usize
            } else {
                5
            };
            if self.current < self.scroll {
                self.scroll = self.current;
            } else if self.current - self.scroll >= vp {
                self.scroll = self.current + 1 - vp;
            }
        }
    }

    /// What a key does; the shown entries are those of the last refresh.
    pub fn on_key(&mut self, k: KeyPress) -> (r: Pick)
        requires
            old(self).fits(),
            old(self).shown().len() > 0 ==> old(self).model().cur < old(self).shown().len(),
        ensures
            final(self).fits(),
            final(self).texts_view() == old(self).texts_view(),
            final(self).shown() == old(self).shown(),
            picker_exit(k) ==> r == Pick::Cancel,
            !picker_exit(k) ==> {
                let v = old(self).model();
                let n = old(self).shown().len() as int;
                let key = k.key;
                if key == Key::Up || key == Key::Char('k') || key == Key::Char('K') {
                    r == Pick::Redraw && final(self).model() == (PickView { cur: dec0(v.cur), ..v })
                } else if key == Key::Down || key == Key::Char('j') || key == Key::Char('J') {
                    r == Pick::Redraw && final(self).model() == (PickView {
                        cur: if n > 0 && v.cur < n - 1 { v.cur + 1 } else { v.cur },
                        ..v
                    })
                } else if key == Key::Enter {
                    if n > 0 {
                        r == Pick::Chosen(enter_pick(v.filter, old(self).shown(), v.cur) as usize)
                    } else {
                        r == Pick::Stay
                    }
                } else if backspace_key(k) {
                    r == Pick::Redraw && final(self).model() == (PickView {
                        filter: if v.filter.len() > 0 { v.filter.drop_last() } else { v.filter },
                        cur: 0,
                    }) && final(self).first_row() == 0
                } else if key == Key::Delete {
                    r == Pick::Redraw && final(self).model() == (PickView { filter: seq![], cur: 0 })
                        && final(self).first_row() == 0
                } else if key == Key::Esc {
                    r == Pick::Cancel
                } else if key matches Key::Char(_) {
                    r == Pick::Redraw && final(self).model() == (PickView { filter: v.filter.push(key->Char_0), cur: 0 })
                        && final(self).first_row() == 0
                } else {
                    r == Pick::Stay && final(self).model() == v
                }
            },
    {
        let key = k.key;
        let ctrl_char = key == Key::Char('\u{3}') || key == Key::Char('\u{4}');
        if (k.ctrl || ctrl_char) && (key == Key::Char('c') || key == Key::Char('C') || key == Key::Char('d')
            || key == Key::Char('D') || ctrl_char) {
            return Pick::Cancel;
        }
        let n = self.filtered.len();
        if key == Key::Up || key == Key::Char('k') || key == Key::Char('K') {
            if self.current >= 1 {
                self.current = self.current - 1;
            }
            return Pick::Redraw;
        }
        if key == Key::Down || key == Key::Char('j') || key == Key::Char('J') {
            if n > 0 && self.current < n - 1 {
                self.current = self.current + 1;
            }
            return Pick::Redraw;
        }
        if key == Key::Enter {
            if n > 0 {
                return Pick::Chosen(self.enter_choice());
            }
            return Pick::Stay;
        }
        if key == Key::Backspace || key == Key::Char('\u{8}') || key == Key::Char('\u{7f}') {
            if self.filter.len() > 0 {
                self.filter.pop();
            }
            self.current = 0;
            self.scroll = 0;
            return Pick::Redraw;
        }
        if key == Key::Delete {
            self.filter.clear();
            self.current = 0;
            self.scroll = 0;
            assert(self.model().filter =~= seq![]);
            return Pick::Redraw;
        }
        if key == Key::Esc {
            return Pick::Cancel;
        }
        if let Key::Char(c) = key {
            self.filter.push(c);
            self.current = 0;
            self.scroll = 0;
            return Pick::Redraw;
        }
        Pick::Stay
    }

    /// The entry Enter picks (see `enter_pick`).
    fn enter_choice(&self) -> (r: usize)
        requires
            self.fits(),
            self.shown().len() > 0,
            self.model().cur < self.shown().len(),
        ensures
            r == enter_pick(self.model().filter, self.shown(), self.model().cur),
    {
        let f = string_of(&self.filter, 0, self.filter.len());
        assert(self.filter@.subrange(0, self.filter@.len() as int) =~= self.filter@);
        let t = trim_str(f.as_str());
        let tc = crate::text::chars_of(t.as_str());
        let mut digits = tc.len() > 0;
        let mut i: usize = 0;
        while i < tc.len()
            invariant
                i <= tc@.len(),
                digits == (tc@.len() > 0 && forall|q: int| 0 <= q < i ==> crate::numbers::is_digit(#[trigger] tc@[q])),
            decreases tc@.len() - i,
        {
            if !('0' <= tc[i] && tc[i] <= '9') {
                digits = false;
            }
            i += 1;
        }
        if digits {
            if let Some(n) = parse_usize(t.as_str()) {
                if n > 0 {
                    let mut q: usize = 0;
                    let ghost tv = trim(self.filter@);
                    assert(tc@ == tv);
                    assert(all_digits_text(tv));
                    while q < self.filtered.len()
                        invariant
                            q <= self.filtered@.len(),
                            tv == trim(self.filter@),
                            tv.len() > 0,
                            all_digits_text(tv),
                            parsed_usize(tv) == Some(n as int),
                            n > 0,
                            forall|x: int| 0 <= x < q ==> self.filtered@[x] + 1 != n,
                        decreases self.filtered@.len() - q,
                    {
                        if self.filtered[q] < n && self.filtered[q] + 1 == n {
                            assert(self.filtered@[q as int] + 1 == n);
                            return n - 1;
                        }
                        q += 1;
                    }
                }
            }
        }
        self.filtered[self.current]
    }
}

} // verus!
