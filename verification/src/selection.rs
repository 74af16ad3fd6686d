//! Choosing two runs to compare from what the user typed: short codes,
//! dates and month names, or two list positions.

use vstd::prelude::*;
use vstd::utf8::encode_utf8;
use crate::calendar::{utc_date, utc_date_of, utc_string, utc_text, valid_ts};
use crate::differ::Differ;
use crate::i18n::I18n;
use crate::numbers::{parse_i32, parse_u32, parse_usize, parsed_i32, parsed_u32, parsed_usize};
use crate::storage::{CommandExecution, Timestamp};
use crate::store_manager::{executions_sorted, sort_executions};
use crate::text::{chars_of, owned, push_str, same_text, string_of, trim, trim_str};
use crate::words::{contains_text, has_infix, lowercase, split_words, split_words_by, texts, to_lower, words, words_by};

verus! {

/// The English abbreviation of month `m` (`jan` ... `dec`), `unknown`
/// outside `1..=12`.
pub open spec fn month_en(m: int) -> Seq<char> {
    if m == 1 {
        "jan"@
    } else if m == 2 {
        "feb"@
    } else if m == 3 {
        "mar"@
    } else if m == 4 {
        "apr"@
    } else if m == 5 {
        "may"@
    } else if m == 6 {
        "jun"@
    } else if m == 7 {
        "jul"@
    } else if m == 8 {
        "aug"@
    } else if m == 9 {
        "sep"@
    } else if m == 10 {
        "oct"@
    } else if m == 11 {
        "nov"@
    } else if m == 12 {
        "dec"@
    } else {
        "unknown"@
    }
}

/// The message key of the local name of month `m`.
pub open spec fn month_key(m: int) -> Seq<char> {
    "month_"@ + month_en(m)
}

/// The first month, from `m` on, whose English abbreviation occurs in the
/// lower-cased text `lf`.
pub open spec fn en_month_hit(lf: Seq<char>, m: int) -> Option<int>
    decreases 13 - m,
{
    if m < 1 || m > 12 {
        None
    } else if has_infix(lf, month_en(m)) {
        Some(m)
    } else {
        en_month_hit(lf, m + 1)
    }
}

/// The first month, from `m` on, whose local name occurs in `f`.
pub open spec fn local_month_hit(f: Seq<char>, i18n: I18n, m: int) -> Option<int>
    decreases 13 - m,
{
    if m < 1 || m > 12 {
        None
    } else if has_infix(f, i18n.text_for(month_key(m))) {
        Some(m)
    } else {
        local_month_hit(f, i18n, m + 1)
    }
}

/// How many `-` the text holds.
pub open spec fn dash_count(s: Seq<char>) -> nat
    decreases s.len(),
{
    if s.len() == 0 {
        0
    } else {
        dash_count(s.drop_last()) + if s.last() == '-' {
            1nat
        } else {
            0nat
        }
    }
}

/// The position of the first `-` (the length when there is none).
pub open spec fn first_dash(s: Seq<char>) -> int
    decreases s.len(),
{
    if s.len() == 0 {
        0
    } else if s[0] == '-' {
        0
    } else {
        1 + first_dash(s.skip(1))
    }
}

/// Whether a run at `ts` matches a date filter: a four-byte year; a
/// seven-byte `year-month`; a five-byte `month-day`; else an English month
/// abbreviation (any case) or a local month name in the filter; else the
/// filter (any case) inside the run's `YYYY-MM-DD HH:MM:SS` time in UTC.
pub open spec fn date_match(ts: Timestamp, filter: Seq<char>, i18n: I18n) -> bool {
    let d = utc_date(ts.secs, ts.nanos);
    let n = encode_utf8(filter).len();
    let k = first_dash(filter);
    let a = filter.take(k);
    let b = filter.skip(k + 1);
    if n == 4 && parsed_i32(filter) is Some {
        d.0 == parsed_i32(filter)->0
    } else if n == 7 && dash_count(filter) == 1 && parsed_i32(a) is Some && parsed_u32(b) is Some {
        d.0 == parsed_i32(a)->0 && d.1 == parsed_u32(b)->0
    } else if n == 5 && dash_count(filter) == 1 && parsed_u32(a) is Some && parsed_u32(b) is Some {
        d.1 == parsed_u32(a)->0 && d.2 == parsed_u32(b)->0
    } else if en_month_hit(lowercase(filter), 1) is Some {
        d.1 == en_month_hit(lowercase(filter), 1)->0
    } else if local_month_hit(filter, i18n, 1) is Some {
        d.1 == local_month_hit(filter, i18n, 1)->0
    } else {
        has_infix(lowercase(utc_text(ts.secs, ts.nanos)), lowercase(filter))
    }
}

/// Whether a regular expression matches somewhere in a text, as the
/// `regex` crate decides; `None` when the pattern does not compile.
pub uninterp spec fn regex_finds(pattern: Seq<char>, text: Seq<char>) -> Option<bool>;

/// `Regex::new(pattern)` then `is_match(text)`. Claimed: the answer is the
/// named function `regex_finds` (`None` when the pattern does not compile).
#[verifier::external_body]
fn regex_is_match(pattern: &str, text: &str) -> (r: Option<bool>)
    ensures
        r == regex_finds(pattern@, text@),
{
    match regex::Regex::new(pattern) {
        Ok(re) => Some(re.is_match(text)),
        Err(_) => None,
    }
}

/// The date shapes a filter may hold: `YYYY-MM`, `MM-DD`, `YYYY`, `MM/DD`,
/// `YYYY/MM`.
pub open spec fn date_patterns() -> Seq<Seq<char>> {
    seq![
        "\\d{4}-\\d{2}"@,
        "\\d{2}-\\d{2}"@,
        "\\d{4}"@,
        "\\d{1,2}/\\d{1,2}"@,
        "\\d{4}/\\d{1,2}"@,
    ]
}

/// Whether the input reads as a date filter: one of the date shapes occurs
/// in it, or an English month abbreviation (any case), or a local month
/// name.
pub open spec fn date_like(input: Seq<char>, i18n: I18n) -> bool {
    ||| (exists|k: int| 0 <= k < 5 && regex_finds(#[trigger] date_patterns()[k], input) == Some(true))
    ||| en_month_hit(lowercase(input), 1) is Some
    ||| local_month_hit(input, i18n, 1) is Some
}

/// An ASCII letter or digit.
pub open spec fn ascii_alnum(c: char) -> bool {
    ('a' <= c <= 'z') || ('A' <= c <= 'Z') || ('0' <= c <= '9')
}

/// Every character is an ASCII letter or digit.
pub open spec fn alnum_text(w: Seq<char>) -> bool {
    forall|j: int| 0 <= j < w.len() ==> ascii_alnum(#[trigger] w[j])
}

/// Some run carries short code `code`.
pub open spec fn has_code(execs: Seq<CommandExecution>, code: Seq<char>) -> bool {
    exists|i: int|
        0 <= i < execs.len() && (#[trigger] execs[i]).record.short_code is Some
            && execs[i].record.short_code->0@ == code
}

/// The short codes an input names: its one or two tokens (separated by
/// whitespace or commas) must all be letters and digits; those that some
/// run carries are kept, in order; `None` when there are none or the input
/// is not of that shape.
pub open spec fn code_filter_of(input: Seq<char>, execs: Seq<CommandExecution>) -> Option<Seq<Seq<char>>> {
    let toks = words_by(input, true);
    if input.len() == 0 || toks.len() == 0 || toks.len() > 2 {
        None
    } else if !(forall|t: int| 0 <= t < toks.len() ==> alnum_text(#[trigger] toks[t])) {
        None
    } else {
        let picked = toks.filter(|t: Seq<char>| has_code(execs, t));
        if picked.len() == 0 {
            None
        } else {
            Some(picked)
        }
    }
}

/// The position of the last run, among the first `k`, that carries short
/// code `code`.
pub open spec fn last_with_code(execs: Seq<CommandExecution>, code: Seq<char>, k: int) -> Option<int>
    decreases k,
{
    if k <= 0 {
        None
    } else if execs[k - 1].record.short_code is Some && execs[k - 1].record.short_code->0@ == code {
        Some(k - 1)
    } else {
        last_with_code(execs, code, k - 1)
    }
}

/// The position of the run the code at `k` names (the last run carrying
/// it), when there is such a code and such a run.
pub open spec fn code_pos(execs: Seq<CommandExecution>, codes: Seq<Seq<char>>, k: int) -> Option<int> {
    if codes.len() > k {
        last_with_code(execs, codes[k], execs.len() as int)
    } else {
        None
    }
}

/// The runs the first two codes name (the last run carrying each code); a
/// second code that names the same run as the first adds nothing, so that
/// the pair is completed by another run.
pub open spec fn picked_by_codes(execs: Seq<CommandExecution>, codes: Seq<Seq<char>>) -> Seq<CommandExecution> {
    let first = match code_pos(execs, codes, 0) {
        Some(i) => seq![execs[i]],
        None => Seq::<CommandExecution>::empty(),
    };
    let second = match code_pos(execs, codes, 1) {
        Some(j) => if code_pos(execs, codes, 0) == Some(j) {
            Seq::<CommandExecution>::empty()
        } else {
            seq![execs[j]]
        },
        None => Seq::<CommandExecution>::empty(),
    };
    first + second
}

/// The position in `s` of the first run whose id none of `picked` has.
pub open spec fn first_other(s: Seq<CommandExecution>, picked: Seq<CommandExecution>, k: int) -> Option<int>
    decreases s.len() - k,
{
    if k < 0 || k >= s.len() {
        None
    } else if forall|q: int| 0 <= q < picked.len() ==> picked[q].record.record_id@ != (#[trigger] s[k]).record.record_id@ {
        Some(k)
    } else {
        first_other(s, picked, k + 1)
    }
}

/// `r` is the pair chosen by short codes: the named runs, oldest first;
/// with only one named, the newest other run joins it; with none, or no
/// other run to add, the first two runs.
pub open spec fn by_code_ok(execs: Seq<CommandExecution>, codes: Seq<Seq<char>>, r: Seq<CommandExecution>) -> bool {
    let p = picked_by_codes(execs, codes);
    if p.len() >= 2 {
        exists|src: Seq<int>| executions_sorted(p, r, src, false)
    } else {
        exists|s1: Seq<CommandExecution>, src1: Seq<int>|
            #[trigger] executions_sorted(execs, s1, src1, true) && completed_pair(execs, p, s1, r)
    }
}

/// `r` is the named run `p` completed by the first run of `s1` (the runs,
/// newest first) that it does not already hold, oldest first; the first
/// two runs when that leaves fewer than two.
pub open spec fn completed_pair(
    execs: Seq<CommandExecution>,
    p: Seq<CommandExecution>,
    s1: Seq<CommandExecution>,
    r: Seq<CommandExecution>,
) -> bool {
    match first_other(s1, p, 0) {
        Some(j) => if p.len() + 1 >= 2 {
            exists|src2: Seq<int>| #[trigger] executions_sorted(p.push(s1[j]), r, src2, false)
        } else {
            r == first_two(execs)
        },
        None => r == first_two(execs),
    }
}

/// The pair chosen by a date filter: with fewer than two matching runs,
/// the first two runs (and the flag set); else the two newest matching
/// runs, oldest first.
pub open spec fn by_date_ok(
    execs: Seq<CommandExecution>,
    filter: Seq<char>,
    i18n: I18n,
    r: Seq<CommandExecution>,
    fallback: bool,
) -> bool {
    let f = execs.filter(|e: CommandExecution| date_match(e.record.timestamp, filter, i18n));
    if f.len() < 2 {
        fallback && r == first_two(execs)
    } else {
        !fallback && exists|s1: Seq<CommandExecution>, src1: Seq<int>, src2: Seq<int>|
            #![trigger executions_sorted(f, s1, src1, true), executions_sorted(s1.take(2), r, src2, false)]
            executions_sorted(f, s1, src1, true) && executions_sorted(s1.take(2), r, src2, false)
    }
}

/// The first two runs (all of them when there are fewer).
pub open spec fn first_two(execs: Seq<CommandExecution>) -> Seq<CommandExecution> {
    execs.take(if execs.len() >= 2 { 2 } else { execs.len() as int })
}

/// Every run's timestamp is one `chrono` can hold.
pub open spec fn all_runs_valid(execs: Seq<CommandExecution>) -> bool {
    forall|i: int| 0 <= i < execs.len() ==> valid_ts(#[trigger] execs[i].record.timestamp)
}

/// A message the simple selection shows with its choice.
#[derive(Debug, Clone, Copy, PartialEq, Eq, Structural)]
pub enum SelectNote {
    /// No message.
    Nothing,
    /// The input was not understood; the first two runs are used.
    InvalidInput,
    /// Fewer than two runs matched the date; the first two are used.
    FewRecords,
    /// The runs that matched the date are used (their times are listed).
    UsingFiltered,
}

/// A position typed by the user that names one of `n` runs.
pub open spec fn valid_position(p: Seq<char>, n: int) -> bool {
    parsed_usize(p) is Some && 1 <= parsed_usize(p)->0 <= n
}

/// The pair chosen from what the user typed (trimmed): short codes first,
/// then a date filter, then exactly two valid positions (the runs at those
/// positions, oldest first); anything else takes the first two runs.
pub open spec fn choice_ok(
    execs: Seq<CommandExecution>,
    input: Seq<char>,
    i18n: I18n,
    r: Seq<CommandExecution>,
    note: SelectNote,
) -> bool {
    let t = trim(input);
    match code_filter_of(t, execs) {
        Some(codes) => by_code_ok(execs, codes, r) && note == SelectNote::Nothing,
        None => if date_like(t, i18n) {
            exists|fb: bool|
                by_date_ok(execs, t, i18n, r, fb) && note == if fb {
                    SelectNote::FewRecords
                } else {
                    SelectNote::UsingFiltered
                }
        } else {
            let parts = words(t);
            if parts.len() == 2 && valid_position(parts[0], execs.len() as int) && valid_position(
                parts[1],
                execs.len() as int,
            ) {
                let pair = seq![
                    execs[parsed_usize(parts[0])->0 - 1],
                    execs[parsed_usize(parts[1])->0 - 1],
                ];
                note == SelectNote::Nothing && exists|src: Seq<int>| #[trigger] executions_sorted(pair, r, src, false)
            } else {
                note == SelectNote::InvalidInput && r == first_two(execs)
            }
        },
    }
}

/// A copy of the first `n` runs (all of them when there are fewer).
fn first_runs(execs: &Vec<CommandExecution>, n: usize) -> (r: Vec<CommandExecution>)
    ensures
        r@ == execs@.take(if n <= execs@.len() { n as int } else { execs@.len() as int }),
{
    let m = if n <= execs.len() {
        n
    } else {
        execs.len()
    };
    let mut out: Vec<CommandExecution> = Vec::new();
    let mut i: usize = 0;
    while i < m
        invariant
            m <= execs@.len(),
            i <= m,
            out@ == execs@.take(i as int),
        decreases m - i,
    {
        out.push(execs[i].duplicate());
        i += 1;
        assert(out@ =~= execs@.take(i as int));
    }
    out
}

/// A copy of the runs.
fn copy_runs(execs: &Vec<CommandExecution>) -> (r: Vec<CommandExecution>)
    ensures
        r@ == execs@,
{
    let r = first_runs(execs, execs.len());
    assert(execs@.take(execs@.len() as int) =~= execs@);
    r
}

impl Differ {
    /// The English abbreviation of a month (`jan` ... `dec`), `unknown`
    /// outside `1..=12`.
    pub fn get_month_en_name(month: u32) -> (r: &'static str)
        ensures
            r@ == month_en(month as int),
    {
        if month == 1 {
            "jan"
        } else if month == 2 {
            "feb"
        } else if month == 3 {
            "mar"
        } else if month == 4 {
            "apr"
        } else if month == 5 {
            "may"
        } else if month == 6 {
            "jun"
        } else if month == 7 {
            "jul"
        } else if month == 8 {
            "aug"
        } else if month == 9 {
            "sep"
        } else if month == 10 {
            "oct"
        } else if month == 11 {
            "nov"
        } else if month == 12 {
            "dec"
        } else {
            "unknown"
        }
    }

    /// The local name of a month, from the message table.
    fn local_month_name(month: u32, i18n: &I18n) -> (r: String)
        ensures
            r@ == i18n.text_for(month_key(month as int)),
    {
        let mut key = owned("month_");
        push_str(&mut key, Self::get_month_en_name(month));
        i18n.t(key.as_str())
    }

    /// The first month from `1` whose English abbreviation occurs in `lf`.
    fn en_month_in(lf: &str) -> (r: Option<u32>)
        ensures
            match r {
                Some(m) => en_month_hit(lf@, 1) == Some(m as int),
                None => en_month_hit(lf@, 1) is None,
            },
    {
        let mut m: u32 = 12;
        let mut hit: Option<u32> = None;
        while m >= 1
            invariant
                0 <= m <= 12,
                match hit {
                    Some(h) => en_month_hit(lf@, m as int + 1) == Some(h as int),
                    None => en_month_hit(lf@, m as int + 1) is None,
                },
            decreases m,
        {
            if contains_text(lf, Self::get_month_en_name(m)) {
                hit = Some(m);
            }
            m -= 1;
        }
        hit
    }

    /// The first month from `1` whose local name occurs in `f`.
    fn local_month_in(f: &str, i18n: &I18n) -> (r: Option<u32>)
        ensures
            match r {
                Some(m) => local_month_hit(f@, *i18n, 1) == Some(m as int),
                None => local_month_hit(f@, *i18n, 1) is None,
            },
    {
        let mut m: u32 = 12;
        let mut hit: Option<u32> = None;
        while m >= 1
            invariant
                0 <= m <= 12,
                match hit {
                    Some(h) => local_month_hit(f@, *i18n, m as int + 1) == Some(h as int),
                    None => local_month_hit(f@, *i18n, m as int + 1) is None,
                },
            decreases m,
        {
            let name = Self::local_month_name(m, i18n);
            if contains_text(f, name.as_str()) {
                hit = Some(m);
            }
            m -= 1;
        }
        hit
    }

    /// Whether a run at `timestamp` matches a date filter (see
    /// `date_match`).
    pub fn matches_date_filter(timestamp: Timestamp, filter: &str, i18n: &I18n) -> (r: bool)
        requires
            valid_ts(timestamp),
        ensures
            r == date_match(timestamp, filter@, *i18n),
    {
        let d = utc_date_of(timestamp);
        let n = filter.as_bytes().len();
        let cs = chars_of(filter);
        let mut dashes: usize = 0;
        let mut k: usize = cs.len();
        let mut i: usize = 0;
        proof {
            lemma_first_dash_bound(cs@);
        }
        while i < cs.len()
            invariant
                cs@ == filter@,
                i <= cs@.len(),
                dashes == dash_count(cs@.take(i as int)),
                dashes <= i,
                0 <= first_dash(cs@) <= cs@.len(),
                k == if first_dash(cs@) < i { first_dash(cs@) } else { cs@.len() as int },
                k == cs@.len() ==> forall|j: int| 0 <= j < i ==> cs@[j] != '-',
                dashes > 0 ==> k < cs@.len(),
            decreases cs@.len() - i,
        {
            proof {
                assert(cs@.take(i + 1).drop_last() =~= cs@.take(i as int));
                if k == cs@.len() {
                    lemma_first_dash(cs@, i as int);
                }
            }
            if cs[i] == '-' {
                dashes += 1;
                if k == cs.len() {
                    k = i;
                }
            }
            i += 1;
        }
        proof {
            assert(cs@.take(i as int) =~= cs@);
            lemma_first_dash_bound(cs@);
        }
        let kk = if k < cs.len() { k } else { cs.len() };
        let a = string_of(&cs, 0, kk);
        let b = if kk < cs.len() {
            string_of(&cs, kk + 1, cs.len())
        } else {
            String::new()
        };
        proof {
            let fd = first_dash(filter@);
            assert(a@ =~= filter@.take(fd));
            if fd < filter@.len() {
                assert(b@ =~= filter@.skip(fd + 1));
            }
        }
        if n == 4 {
            if let Some(year) = parse_i32(filter) {
                return d.0 == year;
            }
        }
        if n == 7 && dashes == 1 {
            if let Some(year) = parse_i32(a.as_str()) {
                if let Some(month) = parse_u32(b.as_str()) {
                    return d.0 == year && d.1 == month;
                }
            }
        }
        if n == 5 && dashes == 1 {
            if let Some(month) = parse_u32(a.as_str()) {
                if let Some(day) = parse_u32(b.as_str()) {
                    return d.1 == month && d.2 == day;
                }
            }
        }
        let lf = to_lower(filter);
        if let Some(m) = Self::en_month_in(lf.as_str()) {
            return d.1 == m;
        }
        if let Some(m) = Self::local_month_in(filter, i18n) {
            return d.1 == m;
        }
        let text = utc_string(timestamp);
        let lt = to_lower(text.as_str());
        contains_text(lt.as_str(), lf.as_str())
    }

    /// Whether the input reads as a date filter (see `date_like`); a date
    /// pattern that did not compile counts as no match.
    pub fn is_date_filter_input(input: &str, i18n: &I18n) -> (r: bool)
        ensures
            r == date_like(input@, *i18n),
    {
        let p0 = regex_is_match("\\d{4}-\\d{2}", input);
        let p1 = regex_is_match("\\d{2}-\\d{2}", input);
        let p2 = regex_is_match("\\d{4}", input);
        let p3 = regex_is_match("\\d{1,2}/\\d{1,2}", input);
        let p4 = regex_is_match("\\d{4}/\\d{1,2}", input);
        let any = p0 == Some(true) || p1 == Some(true) || p2 == Some(true) || p3 == Some(true) || p4
            == Some(true);
        proof {
            let ps = date_patterns();
            assert(ps[0] == "\\d{4}-\\d{2}"@);
            assert(ps[1] == "\\d{2}-\\d{2}"@);
            assert(ps[2] == "\\d{4}"@);
            assert(ps[3] == "\\d{1,2}/\\d{1,2}"@);
            assert(ps[4] == "\\d{4}/\\d{1,2}"@);
            if any {
                if p0 == Some(true) {
                    assert(regex_finds(ps[0], input@) == Some(true));
                } else if p1 == Some(true) {
                    assert(regex_finds(ps[1], input@) == Some(true));
                } else if p2 == Some(true) {
                    assert(regex_finds(ps[2], input@) == Some(true));
                } else if p3 == Some(true) {
                    assert(regex_finds(ps[3], input@) == Some(true));
                } else {
                    assert(regex_finds(ps[4], input@) == Some(true));
                }
            } else {
                assert forall|k: int| 0 <= k < 5 implies regex_finds(#[trigger] ps[k], input@) != Some(true) by {
                    if k == 0 {
                    } else if k == 1 {
                    } else if k == 2 {
                    } else if k == 3 {
                    } else {
                    }
                }
            }
        }
        if any {
            return true;
        }
        let lower = to_lower(input);
        if Self::en_month_in(lower.as_str()).is_some() {
            return true;
        }
        Self::local_month_in(input, i18n).is_some()
    }

    /// Whether some run carries short code `code`.
    fn code_available(executions: &Vec<CommandExecution>, code: &str) -> (r: bool)
        ensures
            r == has_code(executions@, code@),
    {
        let mut i: usize = 0;
        while i < executions.len()
            invariant
                i <= executions@.len(),
                forall|j: int|
                    0 <= j < i ==> !((#[trigger] executions@[j]).record.short_code is Some
                        && executions@[j].record.short_code->0@ == code@),
            decreases executions@.len() - i,
        {
            match &executions[i].record.short_code {
                Some(c) => {
                    if same_text(c.as_str(), code) {
                        return true;
                    }
                },
                None => {},
            }
            i += 1;
        }
        false
    }

    /// The short codes an input names (see `code_filter_of`).
    pub fn is_code_filter_input(input: &str, executions: &Vec<CommandExecution>) -> (r: Option<Vec<String>>)
        ensures
            match r {
                Some(v) => code_filter_of(input@, executions@) == Some(texts(v@)),
                None => code_filter_of(input@, executions@) is None,
            },
    {
        if input.is_empty() {
            return None;
        }
        let tokens = split_words_by(input, true);
        let ghost toks = texts(tokens@);
        if tokens.len() == 0 || tokens.len() > 2 {
            return None;
        }
        let mut picked: Vec<String> = Vec::new();
        let mut t: usize = 0;
        while t < tokens.len()
            invariant
                toks == texts(tokens@),
                toks == words_by(input@, true),
                input@.len() > 0,
                0 < toks.len() <= 2,
                t <= toks.len(),
                forall|q: int| 0 <= q < t ==> alnum_text(#[trigger] toks[q]),
                texts(picked@) == toks.take(t as int).filter(|x: Seq<char>| has_code(executions@, x)),
            decreases toks.len() - t,
        {
            let cs = chars_of(tokens[t].as_str());
            let mut j: usize = 0;
            while j < cs.len()
                invariant
                    cs@ == toks[t as int],
                    toks == words_by(input@, true),
                    input@.len() > 0,
                    0 < toks.len() <= 2,
                    t < toks.len(),
                    j <= cs@.len(),
                    forall|q: int| 0 <= q < j ==> ascii_alnum(#[trigger] cs@[q]),
                decreases cs@.len() - j,
            {
                let c = cs[j];
                if !(('a' <= c && c <= 'z') || ('A' <= c && c <= 'Z') || ('0' <= c && c <= '9')) {
                    proof {
                        assert(!ascii_alnum(toks[t as int][j as int]));
                        assert(!alnum_text(toks[t as int]));
                    }
                    return None;
                }
                j += 1;
            }
            let avail = Self::code_available(executions, tokens[t].as_str());
            proof {
                assert(alnum_text(toks[t as int]));
                assert(toks.take(t + 1) =~= toks.take(t as int).push(toks[t as int]));
                toks.take(t as int).lemma_filter_push(toks[t as int], |x: Seq<char>| has_code(executions@, x));
            }
            if avail {
                let ghost before = texts(picked@);
                picked.push(tokens[t].clone());
                assert(texts(picked@) =~= before.push(toks[t as int]));
            }
            t += 1;
        }
        proof {
            assert(toks.take(t as int) =~= toks);
            assert(forall|q: int| 0 <= q < toks.len() ==> alnum_text(#[trigger] toks[q]));
        }
        if picked.len() == 0 {
            None
        } else {
            Some(picked)
        }
    }
}

/// `first_dash` of the first `i + 1` characters, told from the first `i`.
proof fn lemma_first_dash(s: Seq<char>, i: int)
    requires
        0 <= i < s.len(),
        forall|j: int| 0 <= j < i ==> s[j] != '-',
    ensures
        first_dash(s) >= i,
        s[i] == '-' ==> first_dash(s) == i,
        s[i] != '-' ==> first_dash(s) > i,
    decreases i,
{
    lemma_first_dash_bound(s);
    if i == 0 {
        if s[0] != '-' {
            lemma_first_dash_bound(s.skip(1));
        }
    } else {
        assert(s[0] != '-');
        assert forall|j: int| 0 <= j < i - 1 implies s.skip(1)[j] != '-' by {
            assert(s.skip(1)[j] == s[j + 1]);
        }
        lemma_first_dash(s.skip(1), i - 1);
        assert(s.skip(1)[i - 1] == s[i]);
    }
}

/// `first_dash` is at most the length, and names a `-` when smaller.
proof fn lemma_first_dash_bound(s: Seq<char>)
    ensures
        0 <= first_dash(s) <= s.len(),
        first_dash(s) < s.len() ==> s[first_dash(s)] == '-',
    decreases s.len(),
{
    if s.len() > 0 && s[0] != '-' {
        lemma_first_dash_bound(s.skip(1));
    }
}

impl Differ {
    /// The position of the last run that carries short code `code`.
    fn last_code_index(executions: &Vec<CommandExecution>, code: &str) -> (r: Option<usize>)
        ensures
            match r {
                Some(i) => i < executions@.len() && last_with_code(executions@, code@, executions@.len() as int) == Some(i as int),
                None => last_with_code(executions@, code@, executions@.len() as int) is None,
            },
    {
        let mut k = executions.len();
        while k > 0
            invariant
                k <= executions@.len(),
                last_with_code(executions@, code@, executions@.len() as int) == last_with_code(
                    executions@,
                    code@,
                    k as int,
                ),
            decreases k,
        {
            let hit = match &executions[k - 1].record.short_code {
                Some(c) => same_text(c.as_str(), code),
                None => false,
            };
            if hit {
                return Some(k - 1);
            }
            k -= 1;
        }
        None
    }

    /// The pair chosen by short codes (see `by_code_ok`).
    pub fn filter_by_code(executions: &Vec<CommandExecution>, codes: &Vec<String>) -> (r: Vec<CommandExecution>)
        ensures
            by_code_ok(executions@, texts(codes@), r@),
    {
        let ghost cv = texts(codes@);
        let mut selected: Vec<CommandExecution> = Vec::new();
        let mut first_pos: Option<usize> = None;
        if codes.len() >= 1 {
            first_pos = Self::last_code_index(executions, codes[0].as_str());
            if let Some(i) = first_pos {
                selected.push(executions[i].duplicate());
            }
        }
        let ghost first = selected@;
        if codes.len() >= 2 {
            if let Some(j) = Self::last_code_index(executions, codes[1].as_str()) {
                if first_pos != Some(j) {
                    selected.push(executions[j].duplicate());
                }
            }
        }
        let ghost p = picked_by_codes(executions@, cv);
        proof {
            if codes@.len() >= 1 {
                assert(cv[0] == codes@[0]@);
            }
            if codes@.len() >= 2 {
                assert(cv[1] == codes@[1]@);
            }
            assert(selected@ =~= p);
        }
        if selected.len() >= 2 {
            let r = sort_executions(selected, false);
            return r;
        }
        let all = copy_runs(executions);
        let sorted = sort_executions(all, true);
        let ghost s1 = sorted@;
        let ghost src1 = choose|src: Seq<int>| executions_sorted(executions@, s1, src, true);
        let mut found: Option<usize> = None;
        let mut j: usize = 0;
        while j < sorted.len() && found.is_none()
            invariant
                s1 == sorted@,
                selected@ == p,
                j <= s1.len(),
                found is None ==> first_other(s1, p, 0) == first_other(s1, p, j as int),
                found is Some ==> found->0 < s1.len() && first_other(s1, p, 0) == Some(found->0 as int),
            decreases s1.len() - j + (if found is None { 1int } else { 0int }),
        {
            let mut other = true;
            let mut q: usize = 0;
            while q < selected.len()
                invariant
                    selected@ == p,
                    j < s1.len(),
                    s1 == sorted@,
                    q <= p.len(),
                    other == forall|x: int| 0 <= x < q ==> p[x].record.record_id@ != (#[trigger] s1[j as int]).record.record_id@,
                decreases p.len() - q,
            {
                if same_text(selected[q].record.record_id.as_str(), sorted[j].record.record_id.as_str()) {
                    other = false;
                }
                q += 1;
            }
            if other {
                found = Some(j);
            } else {
                j += 1;
            }
        }
        proof {
            if found is None {
                assert(first_other(s1, p, j as int) is None);
            }
        }
        let ghost before = selected@;
        if let Some(jj) = found {
            selected.push(sorted[jj].duplicate());
        }
        if selected.len() < 2 {
            let r = first_runs(executions, 2);
            proof {
                assert(executions_sorted(executions@, s1, src1, true));
                assert(completed_pair(executions@, p, s1, r@));
            }
            return r;
        }
        let ghost sel = selected@;
        proof {
            assert(found is Some);
            assert(sel == p.push(s1[found->0 as int]));
        }
        let r = sort_executions(selected, false);
        proof {
            assert(executions_sorted(executions@, s1, src1, true));
            let src2 = choose|src: Seq<int>| executions_sorted(sel, r@, src, false);
            assert(executions_sorted(p.push(s1[found->0 as int]), r@, src2, false));
            assert(first_other(s1, p, 0) == Some(found->0 as int));
            let j = first_other(s1, p, 0)->0;
            assert(p.len() + 1 >= 2);
            assert(executions_sorted(p.push(s1[j]), r@, src2, false));
            assert(completed_pair(executions@, p, s1, r@));
        }
        r
    }

    /// The pair chosen by a date filter (see `by_date_ok`); the flag says
    /// that too few runs matched and the first two are used.
    pub fn filter_by_date(executions: &Vec<CommandExecution>, filter: &str, i18n: &I18n) -> (r: (
        Vec<CommandExecution>,
        bool,
    ))
        requires
            all_runs_valid(executions@),
        ensures
            by_date_ok(executions@, filter@, *i18n, r.0@, r.1),
    {
        let ghost pred = |e: CommandExecution| date_match(e.record.timestamp, filter@, *i18n);
        let mut filtered: Vec<CommandExecution> = Vec::new();
        let mut i: usize = 0;
        while i < executions.len()
            invariant
                i <= executions@.len(),
                all_runs_valid(executions@),
                pred == (|e: CommandExecution| date_match(e.record.timestamp, filter@, *i18n)),
                filtered@ == executions@.take(i as int).filter(pred),
            decreases executions@.len() - i,
        {
            let e = &executions[i];
            let m = Self::matches_date_filter(e.record.timestamp, filter, i18n);
            proof {
                assert(executions@.take(i + 1) =~= executions@.take(i as int).push(executions@[i as int]));
                executions@.take(i as int).lemma_filter_push(executions@[i as int], pred);
            }
            if m {
                filtered.push(e.duplicate());
            }
            i += 1;
        }
        assert(executions@.take(i as int) =~= executions@);
        if filtered.len() < 2 {
            return (first_runs(executions, 2), true);
        }
        let ghost f = filtered@;
        let newest = sort_executions(filtered, true);
        let ghost s1 = newest@;
        let two = first_runs(&newest, 2);
        let r = sort_executions(two, false);
        proof {
            let src1 = choose|src: Seq<int>| executions_sorted(f, s1, src, true);
            let src2 = choose|src: Seq<int>| executions_sorted(s1.take(2), r@, src, false);
            assert(executions_sorted(f, s1, src1, true) && executions_sorted(s1.take(2), r@, src2, false));
        }
        let ghost rv = r@;
        let out = (r, false);
        assert(out.0@ == rv);
        out
    }

    /// The pair chosen from what the user typed (see `choice_ok`).
    pub fn choose_by_input(executions: &Vec<CommandExecution>, input: &str, i18n: &I18n) -> (r: (
        Vec<CommandExecution>,
        SelectNote,
    ))
        requires
            all_runs_valid(executions@),
        ensures
            choice_ok(executions@, input@, *i18n, r.0@, r.1),
    {
        let t = trim_str(input);
        if let Some(codes) = Self::is_code_filter_input(t.as_str(), executions) {
            let r = Self::filter_by_code(executions, &codes);
            let ghost rv = r@;
            let out = (r, SelectNote::Nothing);
            assert(out.0@ == rv);
            return out;
        }
        if Self::is_date_filter_input(t.as_str(), i18n) {
            let (r, fb) = Self::filter_by_date(executions, t.as_str(), i18n);
            let note = if fb {
                SelectNote::FewRecords
            } else {
                SelectNote::UsingFiltered
            };
            let ghost rv = r@;
            let out = (r, note);
            assert(out.0@ == rv);
            return out;
        }
        let parts = split_words(t.as_str());
        let n = executions.len();
        if parts.len() == 2 {
            let a = parse_usize(parts[0].as_str());
            let b = parse_usize(parts[1].as_str());
            proof {
                assert(texts(parts@)[0] == parts@[0]@);
                assert(texts(parts@)[1] == parts@[1]@);
            }
            match (a, b) {
                (Some(x), Some(y)) => {
                    if 1 <= x && x <= n && 1 <= y && y <= n {
                        let mut pair: Vec<CommandExecution> = Vec::new();
                        pair.push(executions[x - 1].duplicate());
                        pair.push(executions[y - 1].duplicate());
                        let ghost pv = pair@;
                        let r = sort_executions(pair, false);
                        proof {
                            let pair_spec = seq![executions@[x - 1], executions@[y - 1]];
                            assert(pv =~= pair_spec);
                        }
                        let ghost rv = r@;
                        let out = (r, SelectNote::Nothing);
                        assert(out.0@ == rv);
                        return out;
                    }
                },
                _ => {},
            }
        }
        let r = first_runs(executions, 2);
        let ghost rv = r@;
        let out = (r, SelectNote::InvalidInput);
        assert(out.0@ == rv);
        out
    }
}

} // verus!
