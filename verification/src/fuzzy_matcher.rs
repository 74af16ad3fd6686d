//! Ranking of candidate strings against a filter pattern: a number match
//! first, then a substring match, a prefix match, and finally skim-style
//! fuzzy matching.
//!
//! Positions and lengths are in bytes of the UTF-8 encoding, as `str::find`
//! and `str::len` report them.

use vstd::prelude::*;
use ::fuzzy_matcher::FuzzyMatcher;
use vstd::utf8::{encode_utf8, encode_utf8_valid_utf8, is_char_boundary, is_char_boundary_start_end_of_seq};
use crate::text::{byte_slice, chars_of, lemma_encode_concat, push_char, push_str};

verus! {

/// Outcome of a successful match: a score (higher is better) and the
/// matched positions.
#[derive(Debug, Clone)]
pub struct MatchResult {
    pub score: i64,
    pub indices: Vec<usize>,
}

impl MatchResult {
    /// The score and the positions as mathematical values.
    pub open spec fn view_pair(&self) -> (i64, Seq<usize>) {
        (self.score, self.indices@)
    }
}

/// The UTF-8 bytes of a character sequence.
pub open spec fn bytes_of(s: Seq<char>) -> Seq<u8> {
    encode_utf8(s)
}

/// `p` occurs in `t` starting at byte `k`.
pub open spec fn occurs_at(t: Seq<u8>, p: Seq<u8>, k: int) -> bool {
    0 <= k && k + p.len() <= t.len() && t.subrange(k, k + p.len()) == p
}

/// The first position at or after `k` where `p` occurs in `t`.
pub open spec fn find_from(t: Seq<u8>, p: Seq<u8>, k: int) -> Option<int>
    decreases t.len() - k,
{
    if k < 0 || k + p.len() > t.len() {
        None
    } else if occurs_at(t, p, k) {
        Some(k)
    } else {
        proof {
            if p.len() == 0 {
                assert(t.subrange(k, k) =~= p);
            }
        }
        find_from(t, p, k + 1)
    }
}

/// The first position where `p` occurs in `t` (what `str::find` returns).
pub open spec fn find(t: Seq<u8>, p: Seq<u8>) -> Option<int> {
    find_from(t, p, 0)
}

/// The positions `a, a + 1, ..., b - 1`.
pub open spec fn range_seq(a: int, b: int) -> Seq<usize> {
    Seq::new((b - a) as nat, |i: int| (a + i) as usize)
}

/// All bytes of `p` are ASCII digits (equivalently, all its characters are).
pub open spec fn all_digits(p: Seq<u8>) -> bool {
    forall|i: int| 0 <= i < p.len() ==> 48 <= #[trigger] p[i] <= 57
}

/// What skim's default fuzzy matcher (`SkimMatcherV2`) returns for a choice
/// and a pattern: a score and the matched character positions, if it matches.
pub uninterp spec fn skim_fuzzy_indices(choice: Seq<char>, pattern: Seq<char>) -> Option<(i64, Seq<usize>)>;

/// Result of an exact (substring) match.
pub open spec fn exact_spec(t: Seq<u8>, p: Seq<u8>) -> Option<(i64, Seq<usize>)> {
    match find(t, p) {
        Some(k) => Some(((1000 + 10 * p.len()) as i64, range_seq(k, k + p.len()))),
        None => None,
    }
}

/// Result of a prefix match.
pub open spec fn prefix_spec(t: Seq<u8>, p: Seq<u8>) -> Option<(i64, Seq<usize>)> {
    if occurs_at(t, p, 0) {
        Some(((800 + 8 * p.len()) as i64, range_seq(0, p.len() as int)))
    } else {
        None
    }
}

/// Result of a number match: a pattern of digits found in the text.
pub open spec fn number_spec(t: Seq<u8>, p: Seq<u8>) -> Option<(i64, Seq<usize>)> {
    if !all_digits(p) {
        None
    } else {
        match find(t, p) {
            Some(k) => Some((1200i64, range_seq(k, k + p.len()))),
            None => None,
        }
    }
}

/// The strategies in priority order: empty pattern, number, exact, prefix,
/// fuzzy.
pub open spec fn comprehensive_spec(text: Seq<char>, pattern: Seq<char>) -> Option<(i64, Seq<usize>)> {
    let t = bytes_of(text);
    let p = bytes_of(pattern);
    if pattern.len() == 0 {
        Some((0i64, Seq::<usize>::empty()))
    } else if number_spec(t, p) is Some {
        number_spec(t, p)
    } else if exact_spec(t, p) is Some {
        exact_spec(t, p)
    } else if prefix_spec(t, p) is Some {
        prefix_spec(t, p)
    } else {
        skim_fuzzy_indices(text, pattern)
    }
}

/// Scores are computed without overflow for this pattern length.
pub open spec fn score_fits(p: Seq<u8>) -> bool {
    1000 + 10 * p.len() <= i64::MAX
}

/// Fuzzy match of `pattern` in `choice` by skim's default matcher
/// (`SkimMatcherV2::default().fuzzy_indices`). Claimed: the result is the
/// named function `skim_fuzzy_indices` of the two strings.
#[verifier::external_body]
fn skim_indices(choice: &str, pattern: &str) -> (r: Option<(i64, Vec<usize>)>)
    ensures
        match r {
            Some((s, ix)) => skim_fuzzy_indices(choice@, pattern@) == Some((s, ix@)),
            None => skim_fuzzy_indices(choice@, pattern@) is None,
        },
{
    ::fuzzy_matcher::skim::SkimMatcherV2::default().fuzzy_indices(choice, pattern)
}

/// Whether `p` occurs in `t` at byte `k`.
fn occurs_at_exec(t: &[u8], p: &[u8], k: usize) -> (r: bool)
    requires
        k + p@.len() <= t@.len(),
    ensures
        r == occurs_at(t@, p@, k as int),
{
    let tl = t.len();
    let mut i: usize = 0;
    while i < p.len()
        invariant
            tl == t@.len(),
            k + p@.len() <= t@.len(),
            i <= p@.len(),
            forall|j: int| 0 <= j < i ==> t@[k + j] == p@[j],
        decreases p@.len() - i,
    {
        if t[k + i] != p[i] {
            proof {
                assert(t@.subrange(k as int, k + p@.len())[i as int] != p@[i as int]);
            }
            return false;
        }
        i += 1;
    }
    assert(t@.subrange(k as int, k + p@.len()) =~= p@);
    true
}

/// First byte position where `p` occurs in `t`.
pub fn find_bytes(t: &[u8], p: &[u8]) -> (r: Option<usize>)
    ensures
        match r {
            Some(k) => find(t@, p@) == Some(k as int),
            None => find(t@, p@) is None,
        },
{
    if p.len() > t.len() {
        return None;
    }
    let last = t.len() - p.len();
    let mut k: usize = 0;
    loop
        invariant
            k <= last,
            last + p@.len() == t@.len(),
            find(t@, p@) == find_from(t@, p@, k as int),
        decreases last - k,
    {
        if occurs_at_exec(t, p, k) {
            return Some(k);
        }
        if k == last {
            assert(find_from(t@, p@, k + 1) is None);
            return None;
        }
        k += 1;
    }
}

/// The vector `a, a + 1, ..., b - 1`.
fn range_vec(a: usize, b: usize) -> (r: Vec<usize>)
    requires
        a <= b,
    ensures
        r@ == range_seq(a as int, b as int),
{
    let mut v: Vec<usize> = Vec::new();
    let mut i = a;
    while i < b
        invariant
            a <= i <= b,
            v@ == range_seq(a as int, i as int),
        decreases b - i,
    {
        v.push(i);
        i += 1;
        assert(v@ =~= range_seq(a as int, i as int));
    }
    v
}

/// Whether every byte is an ASCII digit.
fn all_digits_exec(p: &[u8]) -> (r: bool)
    ensures
        r == all_digits(p@),
{
    let mut i: usize = 0;
    while i < p.len()
        invariant
            i <= p@.len(),
            forall|j: int| 0 <= j < i ==> 48 <= #[trigger] p@[j] <= 57,
        decreases p@.len() - i,
    {
        if p[i] < 48 || p[i] > 57 {
            return false;
        }
        i += 1;
    }
    true
}

/// FZF-style fuzzy matcher.
pub struct FzfMatcher {}

impl FzfMatcher {
    /// Create a new fuzzy matcher.
    pub fn new() -> (r: Self) {
        FzfMatcher {  }
    }

    /// Skim-style fuzzy match of `pattern` in `text`.
    pub fn fuzzy_match(&self, pattern: &str, text: &str) -> (r: Option<MatchResult>)
        ensures
            match r {
                Some(m) => skim_fuzzy_indices(text@, pattern@) == Some(m.view_pair()),
                None => skim_fuzzy_indices(text@, pattern@) is None,
            },
    {
        match skim_indices(text, pattern) {
            Some((score, indices)) => Some(MatchResult { score, indices }),
            None => None,
        }
    }

    /// Substring match at the first occurrence, scored `1000 + 10 * len`.
    pub fn exact_match(&self, pattern: &str, text: &str) -> (r: Option<MatchResult>)
        requires
            score_fits(bytes_of(pattern@)),
        ensures
            match r {
                Some(m) => exact_spec(bytes_of(text@), bytes_of(pattern@)) == Some(m.view_pair()),
                None => exact_spec(bytes_of(text@), bytes_of(pattern@)) is None,
            },
    {
        let t = text.as_bytes();
        let p = pattern.as_bytes();
        let tl = t.len();
        match find_bytes(t, p) {
            Some(start) => {
                proof {
                    lemma_find_from_occurs(t@, p@, 0);
                }
                let indices = range_vec(start, start + p.len());
                let score = 1000 + (p.len() as i64) * 10;
                Some(MatchResult { score, indices })
            },
            None => None,
        }
    }

    /// Prefix match, scored `800 + 8 * len`.
    pub fn prefix_match(&self, pattern: &str, text: &str) -> (r: Option<MatchResult>)
        requires
            score_fits(bytes_of(pattern@)),
        ensures
            match r {
                Some(m) => prefix_spec(bytes_of(text@), bytes_of(pattern@)) == Some(m.view_pair()),
                None => prefix_spec(bytes_of(text@), bytes_of(pattern@)) is None,
            },
    {
        let t = text.as_bytes();
        let p = pattern.as_bytes();
        if p.len() <= t.len() && occurs_at_exec(t, p, 0) {
            let indices = range_vec(0, p.len());
            let score = 800 + (p.len() as i64) * 8;
            Some(MatchResult { score, indices })
        } else {
            None
        }
    }

    /// A pattern of digits found in the text, scored 1200.
    pub fn number_match(&self, pattern: &str, text: &str) -> (r: Option<MatchResult>)
        ensures
            match r {
                Some(m) => number_spec(bytes_of(text@), bytes_of(pattern@)) == Some(m.view_pair()),
                None => number_spec(bytes_of(text@), bytes_of(pattern@)) is None,
            },
    {
        let t = text.as_bytes();
        let p = pattern.as_bytes();
        let tl = t.len();
        if all_digits_exec(p) {
            match find_bytes(t, p) {
                Some(pos) => {
                    proof {
                        assert(occurs_at(t@, p@, pos as int)) by {
                            lemma_find_from_occurs(t@, p@, 0);
                        }
                    }
                    let indices = range_vec(pos, pos + p.len());
                    Some(MatchResult { score: 1200, indices })
                },
                None => None,
            }
        } else {
            None
        }
    }

    /// The strategies in priority order; an empty pattern matches with
    /// score 0 and no positions.
    pub fn comprehensive_match(&self, pattern: &str, text: &str) -> (r: Option<MatchResult>)
        requires
            score_fits(bytes_of(pattern@)),
        ensures
            match r {
                Some(m) => comprehensive_spec(text@, pattern@) == Some(m.view_pair()),
                None => comprehensive_spec(text@, pattern@) is None,
            },
    {
        if pattern.is_empty() {
            return Some(MatchResult { score: 0, indices: Vec::new() });
        }
        if let Some(result) = self.number_match(pattern, text) {
            return Some(result);
        }
        if let Some(result) = self.exact_match(pattern, text) {
            return Some(result);
        }
        if let Some(result) = self.prefix_match(pattern, text) {
            return Some(result);
        }
        self.fuzzy_match(pattern, text)
    }
}

impl Default for FzfMatcher {
    fn default() -> (r: Self)
        ensures
            r == (FzfMatcher {  }),
    {
        Self::new()
    }
}

/// Ranking order: a higher score first; for equal scores, a shorter text
/// (in bytes) first.
pub open spec fn ranks_before(score_a: i64, len_a: nat, score_b: i64, len_b: nat) -> bool {
    score_a > score_b || (score_a == score_b && len_a < len_b)
}

/// Ranking key of an output entry.
pub open spec fn entry_before<T>(a: (T, String, MatchResult), b: (T, String, MatchResult)) -> bool {
    ranks_before(a.2.score, bytes_of(a.1@).len(), b.2.score, bytes_of(b.1@).len())
}

/// `out` lists, for the items that `src` designates, each item with its text
/// and its match result; `src` picks every item that matches, each once,
/// in ranking order, and keeps the input order among equally ranked items.
pub open spec fn ranked_matches<T>(
    items: Seq<(T, String)>,
    pattern: Seq<char>,
    out: Seq<(T, String, MatchResult)>,
    src: Seq<int>,
) -> bool {
    &&& src.len() == out.len()
    &&& forall|i: int|
        0 <= i < out.len() ==> {
            &&& 0 <= #[trigger] src[i] < items.len()
            &&& out[i].0 == items[src[i]].0
            &&& out[i].1 == items[src[i]].1
            &&& comprehensive_spec(items[src[i]].1@, pattern) == Some(out[i].2.view_pair())
        }
    &&& forall|i: int, j: int| 0 <= i < j < out.len() ==> src[i] != src[j]
    &&& forall|k: int|
        0 <= k < items.len() && comprehensive_spec(items[k].1@, pattern) is Some ==> src.contains(
            k,
        )
    &&& forall|i: int, j: int|
        0 <= i < j < out.len() ==> !entry_before(#[trigger] out[j], #[trigger] out[i])
    &&& forall|i: int, j: int|
        0 <= i < j < out.len() && !entry_before(out[i], out[j]) ==> #[trigger] src[i]
            < #[trigger] src[j]
}

impl FzfMatcher {
    /// The items whose text matches `pattern`, each with its match result,
    /// best first (higher score, then shorter text); equally ranked items
    /// keep their input order.
    pub fn match_and_sort<T>(&self, pattern: &str, items: Vec<(T, String)>) -> (r: Vec<
        (T, String, MatchResult),
    >)
        requires
            score_fits(bytes_of(pattern@)),
        ensures
            exists|src: Seq<int>| ranked_matches(items@, pattern@, r@, src),
    {
        let ghost all = items@;
        let n = items.len();
        let mut results: Vec<(T, String, MatchResult)> = Vec::new();
        let ghost mut src: Seq<int> = Seq::empty();
        let mut k: usize = 0;
        for entry in it: items
            invariant
                it.seq() == all,
                k == it.index(),
                k <= all.len(),
                n == all.len(),
                score_fits(bytes_of(pattern@)),
                ranked_matches(all.take(k as int), pattern@, results@, src),
        {
            assert(entry == all[k as int]);
            let (item, text) = entry;
            match self.comprehensive_match(pattern, &text) {
                Some(m) => {
                    let len = text.as_str().as_bytes().len();
                    let mut pos: usize = 0;
                    loop
                        invariant
                            pos <= results.len(),
                            len == bytes_of(text@).len(),
                            forall|q: int| 0 <= q < pos ==> !ranks_before(m.score, len as nat,
                                #[trigger] results@[q].2.score, bytes_of(results@[q].1@).len()),
                        ensures
                            pos <= results.len(),
                            forall|q: int| 0 <= q < pos ==> !ranks_before(m.score, len as nat,
                                #[trigger] results@[q].2.score, bytes_of(results@[q].1@).len()),
                            pos < results.len() ==> ranks_before(m.score, len as nat,
                                results@[pos as int].2.score, bytes_of(results@[pos as int].1@).len()),
                        decreases results.len() - pos,
                    {
                        if pos == results.len() {
                            break;
                        }
                        let other_score = results[pos].2.score;
                        let other_len = results[pos].1.as_str().as_bytes().len();
                        if m.score > other_score || (m.score == other_score && len < other_len) {
                            break;
                        }
                        pos += 1;
                    }
                    let ghost old_results = results@;
                    let ghost old_src = src;
                    let ghost e = (item, text, m);
                    results.insert(pos, (item, text, m));
                    proof {
                        src = src.insert(pos as int, k as int);
                        lemma_insert_ranked(all, k as int, pattern@, old_results, old_src, e,
                            pos as int);
                        assert(results@ == old_results.insert(pos as int, e));
                    }
                },
                None => {
                    proof {
                        let before = all.take(k as int);
                        let after = all.take(k + 1);
                        assert forall|q: int|
                            0 <= q < after.len() && comprehensive_spec(after[q].1@, pattern@)
                                is Some implies src.contains(q) by {
                            if q < k {
                                assert(before[q] == after[q]);
                            }
                        }
                    }
                },
            }
            k += 1;
        }
        proof {
            assert(all.take(k as int) =~= all);
        }
        results
    }
}

/// The escape sequence that switches the terminal colour to red.
pub open spec fn red_on() -> Seq<char> {
    seq!['\x1b', '[', '3', '1', 'm']
}

/// The escape sequence that resets terminal colours.
pub open spec fn color_off() -> Seq<char> {
    seq!['\x1b', '[', '0', 'm']
}

/// `i` is a byte position of `t` that falls on a character boundary.
pub open spec fn cut_ok(t: Seq<u8>, i: int) -> bool {
    0 <= i <= t.len() && is_char_boundary(t, i)
}

/// Highlighting `positions` (after position `last`) slices the text only at
/// character boundaries and finds every highlighted character: the
/// inputs on which it does not panic.
pub open spec fn highlight_ok(t: Seq<u8>, cs: Seq<char>, positions: Seq<usize>, last: int) -> bool
    decreases positions.len(),
{
    if positions.len() == 0 {
        last < t.len() ==> cut_ok(t, last)
    } else {
        let pos = positions[0] as int;
        &&& pos > last ==> cut_ok(t, last) && cut_ok(t, pos)
        &&& pos < t.len() ==> pos < cs.len()
        &&& pos < usize::MAX
        &&& highlight_ok(t, cs, positions.skip(1), pos + 1)
    }
}

/// The bytes of the highlighted text: the text between positions copied,
/// and at each position below the byte length the character at that
/// character index wrapped in red.
pub open spec fn highlight_bytes(t: Seq<u8>, cs: Seq<char>, positions: Seq<usize>, last: int) -> Seq<u8>
    decreases positions.len(),
{
    if positions.len() == 0 {
        if last < t.len() {
            t.subrange(last, t.len() as int)
        } else {
            seq![]
        }
    } else {
        let pos = positions[0] as int;
        let gap = if pos > last {
            t.subrange(last, pos)
        } else {
            seq![]
        };
        let mark = if pos < t.len() {
            encode_utf8(red_on() + seq![cs[pos]] + color_off())
        } else {
            seq![]
        };
        gap + mark + highlight_bytes(t, cs, positions.skip(1), pos + 1)
    }
}

impl FzfMatcher {
    /// Wraps the character at each of `indices` in red (ANSI escape codes),
    /// copying the text between them. An index is a byte position for the
    /// copied slices and a character position for the highlighted
    /// character, as in the matcher's output for ASCII text.
    pub fn highlight_matches(&self, text: &str, indices: &[usize]) -> (r: String)
        requires
            highlight_ok(encode_utf8(text@), text@, indices@, 0),
        ensures
            encode_utf8(r@) == highlight_bytes(encode_utf8(text@), text@, indices@, 0),
    {
        let ghost t = encode_utf8(text@);
        let ghost cs0 = text@;
        proof {
            encode_utf8_valid_utf8(text@);
            is_char_boundary_start_end_of_seq(t);
        }
        let tb = text.as_bytes();
        let tl = tb.len();
        if indices.len() == 0 {
            proof {
                if t.len() > 0 {
                    assert(t.subrange(0, t.len() as int) =~= t);
                } else {
                    assert(t =~= Seq::<u8>::empty());
                }
            }
            let r = crate::text::owned(text);
            return r;
        }
        let cs = chars_of(text);
        let mut result = String::new();
        let mut last: usize = 0;
        let mut i: usize = 0;
        proof {
            assert(indices@.skip(0) =~= indices@);
            assert(encode_utf8(result@) =~= Seq::<u8>::empty());
            assert(encode_utf8(result@) + highlight_bytes(t, cs0, indices@, 0) =~= highlight_bytes(
                t,
                cs0,
                indices@,
                0,
            ));
        }
        while i < indices.len()
            invariant
                i <= indices@.len(),
                tl == t.len(),
                cs@ == cs0,
                cs0 == text@,
                t == encode_utf8(cs0),
                highlight_ok(t, cs0, indices@.skip(i as int), last as int),
                encode_utf8(result@) + highlight_bytes(t, cs0, indices@.skip(i as int), last as int)
                    == highlight_bytes(t, cs0, indices@, 0),
            decreases indices@.len() - i,
        {
            let ghost rest = indices@.skip(i as int);
            let ghost before = result@;
            let pos = indices[i];
            assert(rest[0] == pos);
            assert(rest.skip(1) =~= indices@.skip(i + 1));
            let ghost gap = if pos > last {
                t.subrange(last as int, pos as int)
            } else {
                Seq::<u8>::empty()
            };
            let ghost mark = if pos < t.len() {
                encode_utf8(red_on() + seq![cs0[pos as int]] + color_off())
            } else {
                Seq::<u8>::empty()
            };
            assert(highlight_bytes(t, cs0, rest, last as int) == gap + mark + highlight_bytes(
                t,
                cs0,
                rest.skip(1),
                pos + 1,
            ));
            assert(pos > last ==> cut_ok(t, last as int) && cut_ok(t, pos as int));
            assert(pos < t.len() ==> pos < cs0.len());
            assert(highlight_ok(t, cs0, rest.skip(1), pos + 1));
            if pos > last {
                let piece = byte_slice(text, last, pos);
                push_str(&mut result, piece);
                proof {
                    lemma_encode_concat(before, piece@);
                }
            }
            let ghost mid = result@;
            if pos < tl {
                let c = cs[pos];
                push_char(&mut result, '\x1b');
                push_char(&mut result, '[');
                push_char(&mut result, '3');
                push_char(&mut result, '1');
                push_char(&mut result, 'm');
                push_char(&mut result, c);
                push_char(&mut result, '\x1b');
                push_char(&mut result, '[');
                push_char(&mut result, '0');
                push_char(&mut result, 'm');
                proof {
                    assert(result@ =~= mid + (red_on() + seq![c] + color_off()));
                    lemma_encode_concat(mid, red_on() + seq![c] + color_off());
                }
            }
            proof {
                assert(encode_utf8(result@) == encode_utf8(before) + gap + mark);
                assert(encode_utf8(result@) + highlight_bytes(t, cs0, rest.skip(1), pos + 1)
                    =~= encode_utf8(before) + highlight_bytes(t, cs0, rest, last as int));
            }
            last = pos + 1;
            i += 1;
        }
        proof {
            assert(indices@.skip(i as int) =~= Seq::<usize>::empty());
        }
        if last < tl {
            let ghost before = result@;
            let piece = byte_slice(text, last, tl);
            push_str(&mut result, piece);
            proof {
                lemma_encode_concat(before, piece@);
                assert(t.subrange(0, t.len() as int) =~= t);
            }
        }
        result
    }
}

/// Inserting a newly matched item `k` at the first position where it ranks
/// strictly better keeps the ranking invariant.
#[verifier::rlimit(60)]
proof fn lemma_insert_ranked<T>(
    all: Seq<(T, String)>,
    k: int,
    pattern: Seq<char>,
    out: Seq<(T, String, MatchResult)>,
    src: Seq<int>,
    e: (T, String, MatchResult),
    pos: int,
)
    requires
        0 <= k < all.len(),
        ranked_matches(all.take(k), pattern, out, src),
        e.0 == all[k].0,
        e.1 == all[k].1,
        comprehensive_spec(all[k].1@, pattern) == Some(e.2.view_pair()),
        0 <= pos <= out.len(),
        forall|q: int| 0 <= q < pos ==> !entry_before(e, #[trigger] out[q]),
        pos < out.len() ==> entry_before(e, out[pos]),
    ensures
        ranked_matches(all.take(k + 1), pattern, out.insert(pos, e), src.insert(pos, k)),
{
    let before = all.take(k);
    let after = all.take(k + 1);
    let o = out.insert(pos, e);
    let s = src.insert(pos, k);
    assert forall|i: int| 0 <= i < o.len() implies {
        &&& 0 <= #[trigger] s[i] < after.len()
        &&& o[i].0 == after[s[i]].0
        &&& o[i].1 == after[s[i]].1
        &&& comprehensive_spec(after[s[i]].1@, pattern) == Some(o[i].2.view_pair())
    } by {
        if i < pos {
            assert(o[i] == out[i] && s[i] == src[i]);
            assert(0 <= src[i] < before.len());
            assert(after[s[i]] == before[s[i]]);
        } else if i > pos {
            assert(o[i] == out[i - 1] && s[i] == src[i - 1]);
            assert(0 <= src[i - 1] < before.len());
            assert(after[s[i]] == before[s[i]]);
        }
    }
    assert forall|i: int, j: int| 0 <= i < j < o.len() implies s[i] != s[j] by {
        if i != pos && j != pos {
            let a = if i < pos { i } else { i - 1 };
            let b = if j < pos { j } else { j - 1 };
            assert(s[i] == src[a] && s[j] == src[b]);
        } else if i == pos {
            let b = j - 1;
            assert(s[j] == src[b] && 0 <= src[b] < before.len());
        } else {
            assert(s[i] == src[i] && 0 <= src[i] < before.len());
        }
    }
    assert forall|q: int|
        0 <= q < after.len() && comprehensive_spec(after[q].1@, pattern) is Some implies s.contains(
        q,
    ) by {
        if q < k {
            assert(before[q] == after[q]);
            assert(src.contains(q));
            let w = choose|w: int| 0 <= w < src.len() && src[w] == q;
            if w < pos {
                assert(s[w] == q);
            } else {
                assert(s[w + 1] == q);
            }
        } else {
            assert(s[pos] == q);
        }
    }
    assert forall|i: int, j: int| 0 <= i < j < o.len() implies !entry_before(
        #[trigger] o[j],
        #[trigger] o[i],
    ) by {
        if i != pos && j != pos {
            let a = if i < pos { i } else { i - 1 };
            let b = if j < pos { j } else { j - 1 };
            assert(o[i] == out[a] && o[j] == out[b]);
        } else if i == pos {
            let b = j - 1;
            assert(o[j] == out[b]);
            assert(!entry_before(out[b], out[pos]));
        } else {
            assert(o[i] == out[i]);
        }
    }
    assert forall|i: int, j: int|
        0 <= i < j < o.len() && !entry_before(o[i], o[j]) implies #[trigger] s[i]
        < #[trigger] s[j] by {
        if i != pos && j != pos {
            let a = if i < pos { i } else { i - 1 };
            let b = if j < pos { j } else { j - 1 };
            assert(o[i] == out[a] && o[j] == out[b]);
            assert(s[i] == src[a] && s[j] == src[b]);
        } else if i == pos {
            let b = j - 1;
            assert(o[j] == out[b]);
            assert(!entry_before(out[b], out[pos]));
            assert(entry_before(e, out[b]));
        } else {
            assert(s[i] == src[i] && 0 <= src[i] < before.len());
        }
    }
}

/// The position `find_from` returns is an occurrence.
proof fn lemma_find_from_occurs(t: Seq<u8>, p: Seq<u8>, k: int)
    ensures
        find_from(t, p, k) matches Some(j) ==> occurs_at(t, p, j) && k <= j,
    decreases t.len() - k,
{
    if !(k < 0 || k + p.len() > t.len()) && !occurs_at(t, p, k) {
        if p.len() == 0 {
            assert(t.subrange(k, k) =~= p);
        }
        lemma_find_from_occurs(t, p, k + 1);
    }
}

} // verus!
