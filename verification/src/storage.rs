//! Command records and the canonical form of a command line.
//!
//! A command is stored under the hash of its canonical form: surrounding
//! whitespace and matching outer quotes removed, whitespace runs collapsed to
//! one space, and no spaces around pipe symbols.

use vstd::prelude::*;
use sha2::{Digest, Sha256};
use vstd::utf8::encode_utf8;
use crate::text::{
    chars_of, is_whitespace, is_ws, lead_ws, lemma_lead_ws, lemma_lead_ws_unique, lemma_trail_ws,
    lemma_trail_ws_unique, lemma_trim, lemma_trim_noop, skip_ws, string_of, trail_ws, trim, trim_bounds,
    trim_end, trim_start,
};

verus! {

/// `s` starts and ends with the same quote character (`'` or `"`).
pub open spec fn quoted(s: Seq<char>) -> bool {
    s.len() > 0 && ((s[0] == '\'' && s.last() == '\'') || (s[0] == '"' && s.last() == '"'))
}

/// Repeatedly removes one pair of matching outer quotes and the whitespace
/// that this exposes, as long as at least two characters remain.
pub open spec fn strip_quotes(s: Seq<char>) -> Seq<char>
    decreases s.len(),
{
    if quoted(s) && s.len() >= 2 {
        proof {
            lemma_trim(s.subrange(1, s.len() - 1));
        }
        strip_quotes(trim(s.subrange(1, s.len() - 1)))
    } else {
        s
    }
}

/// Whitespace normalisation: a run of whitespace becomes one space, unless
/// a pipe symbol follows it; a pipe symbol swallows the whitespace after it.
pub open spec fn squeeze(s: Seq<char>) -> Seq<char>
    decreases s.len(),
{
    if s.len() == 0 {
        seq![]
    } else if is_ws(s[0]) {
        proof {
            lemma_lead_ws(s);
        }
        let r = trim_start(s);
        if r.len() > 0 && r[0] == '|' {
            squeeze(r)
        } else {
            seq![' '] + squeeze(r)
        }
    } else if s[0] == '|' {
        proof {
            lemma_lead_ws(s.skip(1));
        }
        seq!['|'] + squeeze(trim_start(s.skip(1)))
    } else {
        seq![s[0]] + squeeze(s.skip(1))
    }
}

/// The canonical form of a command line.
pub open spec fn canonical(s: Seq<char>) -> Seq<char> {
    trim(squeeze(strip_quotes(trim(s))))
}

/// The canonical form of `command`: trimmed, matching outer quotes removed
/// (repeatedly), whitespace runs collapsed and spaces around `|` removed.
pub fn format_command(command: &str) -> (r: String)
    ensures
        r@ == canonical(command@),
{
    let cs = chars_of(command);
    let n = cs.len();
    let (mut lo, mut hi) = trim_bounds(&cs, 0, n);
    let ghost start = trim(command@);
    proof {
        assert(cs@.subrange(0, n as int) =~= command@);
    }
    loop
        invariant
            lo <= hi <= cs.len(),
            cs@ == command@,
            strip_quotes(cs@.subrange(lo as int, hi as int)) == strip_quotes(start),
        ensures
            lo <= hi <= cs.len(),
            strip_quotes(cs@.subrange(lo as int, hi as int)) == strip_quotes(start),
            strip_quotes(cs@.subrange(lo as int, hi as int)) == cs@.subrange(lo as int, hi as int),
        decreases hi - lo,
    {
        let q = hi > lo && ((cs[lo] == '\'' && cs[hi - 1] == '\'') || (cs[lo] == '"' && cs[hi - 1]
            == '"'));
        proof {
            let s = cs@.subrange(lo as int, hi as int);
            if hi > lo {
                assert(s[0] == cs@[lo as int]);
                assert(s.last() == cs@[hi - 1]);
            }
            assert(q == quoted(s));
        }
        if !q || hi - lo < 2 {
            break ;
        }
        let ghost s = cs@.subrange(lo as int, hi as int);
        proof {
            assert(s.subrange(1, s.len() - 1) =~= cs@.subrange(lo + 1, hi - 1));
        }
        let (a, b) = trim_bounds(&cs, lo + 1, hi - 1);
        lo = a;
        hi = b;
    }
    let res = squeeze_range(&cs, lo, hi);
    proof {
        assert(res@.subrange(0, res@.len() as int) =~= res@);
    }
    let (a, b) = trim_bounds(&res, 0, res.len());
    string_of(&res, a, b)
}


/// The characters of `squeeze(cs[lo..hi])`.
pub fn squeeze_range(cs: &Vec<char>, lo: usize, hi: usize) -> (res: Vec<char>)
    requires
        lo <= hi <= cs.len(),
    ensures
        res@ == squeeze(cs@.subrange(lo as int, hi as int)),
{
    let ghost stripped = cs@.subrange(lo as int, hi as int);
    let mut res: Vec<char> = Vec::new();
    let mut i = lo;
    while i < hi
        invariant
            lo <= i <= hi <= cs.len(),
            res@ + squeeze(cs@.subrange(i as int, hi as int)) == squeeze(stripped),
            stripped == cs@.subrange(lo as int, hi as int),
        decreases hi - i,
    {
        let ghost s = cs@.subrange(i as int, hi as int);
        let c = cs[i];
        assert(s[0] == c);
        if is_whitespace(c) {
            let j = skip_ws(&cs, i, hi);
            proof {
                assert(trim_start(s) =~= cs@.subrange(j as int, hi as int));
            }
            if j < hi && cs[j] == '|' {
                let k = skip_ws(&cs, j + 1, hi);
                proof {
                    let r = cs@.subrange(j as int, hi as int);
                    assert(r[0] == cs@[j as int]);
                    assert(r.skip(1) =~= cs@.subrange(j + 1, hi as int));
                    assert(trim_start(r.skip(1)) =~= cs@.subrange(k as int, hi as int));
                    assert(squeeze(s) == squeeze(r));
                    assert(squeeze(r) == seq!['|'] + squeeze(cs@.subrange(k as int, hi as int)));
                }
                res.push('|');
                i = k;
            } else {
                proof {
                    let r = cs@.subrange(j as int, hi as int);
                    if j < hi {
                        assert(r[0] == cs@[j as int]);
                    }
                    assert(squeeze(s) == seq![' '] + squeeze(r));
                }
                res.push(' ');
                i = j;
            }
        } else if c == '|' {
            let k = skip_ws(&cs, i + 1, hi);
            proof {
                assert(s.skip(1) =~= cs@.subrange(i + 1, hi as int));
                assert(trim_start(s.skip(1)) =~= cs@.subrange(k as int, hi as int));
            }
            res.push('|');
            i = k;
        } else {
            proof {
                assert(s.skip(1) =~= cs@.subrange(i + 1, hi as int));
            }
            res.push(c);
            i += 1;
        }
        assert(res@ + squeeze(cs@.subrange(i as int, hi as int)) =~= squeeze(stripped));
    }
    proof {
        assert(cs@.subrange(i as int, hi as int) =~= Seq::<char>::empty());
        assert(res@ =~= squeeze(stripped));
    }
    res
}

/// No whitespace other than single spaces, no space before whitespace or a
/// pipe, and no whitespace after a pipe: the shape that `squeeze` produces.
pub open spec fn squeezed(s: Seq<char>) -> bool {
    forall|i: int|
        0 <= i < s.len() ==> {
            &&& is_ws(#[trigger] s[i]) ==> s[i] == ' ' && (i + 1 < s.len() ==> !is_ws(s[i + 1])
                && s[i + 1] != '|')
            &&& s[i] == '|' ==> (i + 1 < s.len() ==> !is_ws(s[i + 1]))
        }
}

proof fn lemma_trim_start_of_non_ws(s: Seq<char>)
    requires
        s.len() > 0 ==> !is_ws(s[0]),
    ensures
        trim_start(s) == s,
{
    lemma_lead_ws_unique(s, 0);
    assert(s.skip(0) =~= s);
}

proof fn lemma_trim_start_keeps_last(s: Seq<char>)
    requires
        s.len() > 0,
        !is_ws(s.last()),
    ensures
        trim_start(s).len() > 0,
        trim_start(s).last() == s.last(),
        !is_ws(trim_start(s)[0]),
{
    lemma_lead_ws(s);
    if lead_ws(s) == s.len() {
        assert(is_ws(s[s.len() - 1]));
    }
    assert(trim_start(s).last() == s[s.len() - 1]);
    assert(trim_start(s)[0] == s[lead_ws(s) as int]);
}

/// A sequence that does not start with whitespace keeps its first character,
/// and one that does not end with whitespace keeps its last character.
proof fn lemma_squeeze_ends(s: Seq<char>)
    ensures
        s.len() == 0 <==> squeeze(s).len() == 0,
        s.len() > 0 && !is_ws(s[0]) ==> squeeze(s)[0] == s[0],
        s.len() > 0 && is_ws(s[0]) ==> squeeze(s)[0] == ' ' || squeeze(s)[0] == '|',
        s.len() > 0 && !is_ws(s.last()) ==> squeeze(s).last() == s.last(),
    decreases s.len(),
{
    if s.len() == 0 {
    } else if is_ws(s[0]) {
        lemma_lead_ws(s);
        let r = trim_start(s);
        lemma_squeeze_ends(r);
        if r.len() > 0 {
            assert(!is_ws(r[0])) by {
                assert(r[0] == s[lead_ws(s) as int]);
            }
        }
        if !is_ws(s.last()) {
            lemma_trim_start_keeps_last(s);
        }
    } else if s[0] == '|' {
        lemma_lead_ws(s.skip(1));
        let r = trim_start(s.skip(1));
        lemma_squeeze_ends(r);
        if !is_ws(s.last()) && s.len() > 1 {
            assert(s.skip(1).last() == s.last());
            lemma_trim_start_keeps_last(s.skip(1));
        }
    } else {
        lemma_squeeze_ends(s.skip(1));
        if s.len() > 1 {
            assert(s.skip(1).last() == s.last());
        }
    }
}

proof fn lemma_squeezed_cons(c: char, t: Seq<char>)
    requires
        squeezed(t),
        is_ws(c) ==> c == ' ' && (t.len() > 0 ==> !is_ws(t[0]) && t[0] != '|'),
        c == '|' ==> (t.len() > 0 ==> !is_ws(t[0])),
    ensures
        squeezed(seq![c] + t),
{
    let s = seq![c] + t;
    assert forall|i: int| 0 <= i < s.len() implies {
        &&& is_ws(#[trigger] s[i]) ==> s[i] == ' ' && (i + 1 < s.len() ==> !is_ws(s[i + 1]) && s[i
            + 1] != '|')
        &&& s[i] == '|' ==> (i + 1 < s.len() ==> !is_ws(s[i + 1]))
    } by {
        if i > 0 {
            assert(s[i] == t[i - 1]);
            if i + 1 < s.len() {
                assert(s[i + 1] == t[i]);
            }
        } else if s.len() > 1 {
            assert(s[1] == t[0]);
        }
    }
}

/// `squeeze` always produces the squeezed shape.
proof fn lemma_squeeze_squeezed(s: Seq<char>)
    ensures
        squeezed(squeeze(s)),
    decreases s.len(),
{
    if s.len() == 0 {
    } else if is_ws(s[0]) {
        lemma_lead_ws(s);
        let r = trim_start(s);
        lemma_squeeze_squeezed(r);
        lemma_squeeze_ends(r);
        if r.len() > 0 {
            assert(r[0] == s[lead_ws(s) as int]);
        }
        if !(r.len() > 0 && r[0] == '|') {
            lemma_squeezed_cons(' ', squeeze(r));
        }
    } else if s[0] == '|' {
        lemma_lead_ws(s.skip(1));
        let r = trim_start(s.skip(1));
        lemma_squeeze_squeezed(r);
        lemma_squeeze_ends(r);
        if r.len() > 0 {
            assert(r[0] == s.skip(1)[lead_ws(s.skip(1)) as int]);
        }
        lemma_squeezed_cons('|', squeeze(r));
    } else {
        lemma_squeeze_squeezed(s.skip(1));
        lemma_squeezed_cons(s[0], squeeze(s.skip(1)));
    }
}

/// A squeezed sequence is left unchanged by `squeeze`.
proof fn lemma_squeeze_fixed(s: Seq<char>)
    requires
        squeezed(s),
    ensures
        squeeze(s) == s,
    decreases s.len(),
{
    if s.len() == 0 {
        return ;
    }
    let t = s.skip(1);
    assert(squeezed(t)) by {
        assert forall|i: int| 0 <= i < t.len() implies {
            &&& is_ws(#[trigger] t[i]) ==> t[i] == ' ' && (i + 1 < t.len() ==> !is_ws(t[i + 1])
                && t[i + 1] != '|')
            &&& t[i] == '|' ==> (i + 1 < t.len() ==> !is_ws(t[i + 1]))
        } by {
            assert(t[i] == s[i + 1]);
            if i + 1 < t.len() {
                assert(t[i + 1] == s[i + 2]);
            }
        }
    }
    lemma_squeeze_fixed(t);
    assert(is_ws(s[0]) ==> s[0] == ' ');
    if t.len() > 0 {
        assert(t[0] == s[1]);
    }
    if is_ws(s[0]) {
        assert(lead_ws(s) == 1) by {
            assert(s.skip(1) =~= t);
            lemma_lead_ws_unique(t, 0);
        }
        assert(trim_start(s) =~= t);
        assert(s =~= seq![' '] + t);
    } else if s[0] == '|' {
        lemma_trim_start_of_non_ws(t);
        assert(s =~= seq!['|'] + t);
    } else {
        assert(s =~= seq![s[0]] + t);
    }
}

proof fn lemma_strip_quotes_result(s: Seq<char>)
    requires
        trim(s) == s,
    ensures
        trim(strip_quotes(s)) == strip_quotes(s),
        !(quoted(strip_quotes(s)) && strip_quotes(s).len() >= 2),
    decreases s.len(),
{
    if quoted(s) && s.len() >= 2 {
        let t = trim(s.subrange(1, s.len() - 1));
        lemma_trim(s.subrange(1, s.len() - 1));
        lemma_trim_noop(t);
        lemma_strip_quotes_result(t);
    }
}

/// Formatting a command that is already in canonical form leaves it unchanged,
/// so two command lines that differ only in what formatting removes are filed
/// under the same canonical form.
pub proof fn lemma_canonical_idempotent(s: Seq<char>)
    ensures
        canonical(canonical(s)) == canonical(s),
{
    let t = trim(s);
    lemma_trim(s);
    lemma_trim_noop(t);
    let u = strip_quotes(t);
    lemma_strip_quotes_result(t);
    lemma_trim(u);
    let f = squeeze(u);
    lemma_squeeze_ends(u);
    if u.len() > 0 {
        assert(!is_ws(u[0]) && !is_ws(u.last()));
    }
    lemma_trim_noop(f);
    assert(canonical(s) == f);
    if f.len() > 0 {
        assert(!is_ws(f[0]) && !is_ws(f.last()));
    }
    assert(trim(f) == f);
    if u.len() == 1 {
        assert(u.skip(1) =~= Seq::<char>::empty());
        assert(squeeze(u.skip(1)) =~= Seq::<char>::empty());
        if u[0] == '|' {
            lemma_lead_ws_unique(u.skip(1), 0);
            assert(trim_start(u.skip(1)) =~= Seq::<char>::empty());
            assert(squeeze(trim_start(u.skip(1))) =~= Seq::<char>::empty());
            assert(f =~= seq!['|'] + Seq::<char>::empty());
            assert(f =~= u);
        } else {
            assert(f =~= seq![u[0]] + Seq::<char>::empty());
            assert(f =~= u);
        }
    }
    assert(quoted(f) == quoted(u));
    assert(strip_quotes(f) == f);
    lemma_squeeze_squeezed(u);
    lemma_squeeze_fixed(f);
}

/// Every character of `s` is whitespace.
pub open spec fn all_ws(s: Seq<char>) -> bool {
    forall|i: int| 0 <= i < s.len() ==> is_ws(#[trigger] s[i])
}

/// Whitespace, then `m`, then whitespace trims to `m` when `m` neither
/// starts nor ends with whitespace.
proof fn lemma_trim_between(p: Seq<char>, m: Seq<char>, q: Seq<char>)
    requires
        all_ws(p),
        all_ws(q),
        m.len() > 0 ==> !is_ws(m[0]) && !is_ws(m.last()),
    ensures
        trim(p + m + q) == m,
{
    let x = p + m + q;
    if m.len() > 0 {
        assert forall|k: int| 0 <= k < p.len() implies is_ws(#[trigger] x[k]) by {
            assert(x[k] == p[k]);
        }
        assert(x[p.len() as int] == m[0]);
        lemma_lead_ws_unique(x, p.len() as int);
        let a = trim_start(x);
        assert(a =~= m + q);
        assert forall|k: int| a.len() - q.len() <= k < a.len() implies is_ws(#[trigger] a[k]) by {
            assert(a[k] == q[k - m.len()]);
        }
        assert(a[a.len() - q.len() - 1] == m.last());
        lemma_trail_ws_unique(a, q.len() as int);
        assert(trim_end(a) =~= m);
    } else {
        assert forall|k: int| 0 <= k < x.len() implies is_ws(#[trigger] x[k]) by {
            if k < p.len() {
                assert(x[k] == p[k]);
            } else {
                assert(x[k] == q[k - p.len()]);
            }
        }
        lemma_lead_ws_unique(x, x.len() as int);
        assert(trim_start(x) =~= Seq::<char>::empty());
        lemma_trail_ws_unique(trim_start(x), 0);
        assert(trim(x) =~= m);
    }
}

/// `s` is its trim with whitespace before and after it.
proof fn lemma_trim_parts(s: Seq<char>)
    ensures
        s == s.take(lead_ws(s) as int) + trim(s) + s.skip((lead_ws(s) + trim(s).len()) as int),
        all_ws(s.take(lead_ws(s) as int)),
        all_ws(s.skip((lead_ws(s) + trim(s).len()) as int)),
{
    lemma_trim(s);
    lemma_lead_ws(s);
    let a = lead_ws(s) as int;
    let t = trim(s);
    let st = trim_start(s);
    lemma_trail_ws(st);
    assert(t =~= st.take(st.len() - trail_ws(st)));
    assert(s =~= s.take(a) + t + s.skip(a + t.len()));
    let tail = s.skip(a + t.len());
    assert forall|i: int| 0 <= i < tail.len() implies is_ws(#[trigger] tail[i]) by {
        assert(tail[i] == st[t.len() + i]);
    }
    let head = s.take(a);
    assert forall|i: int| 0 <= i < head.len() implies is_ws(#[trigger] head[i]) by {
        assert(head[i] == s[i]);
    }
}

/// Whitespace around a command line does not change its canonical form.
pub proof fn lemma_trim_ignores_padding(w1: Seq<char>, s: Seq<char>, w2: Seq<char>)
    requires
        all_ws(w1),
        all_ws(w2),
    ensures
        trim(w1 + s + w2) == trim(s),
{
    lemma_trim_parts(s);
    lemma_trim(s);
    let a = lead_ws(s) as int;
    let t = trim(s);
    let p = w1 + s.take(a);
    let q = s.skip(a + t.len()) + w2;
    assert forall|i: int| 0 <= i < p.len() implies is_ws(#[trigger] p[i]) by {
        if i < w1.len() {
            assert(p[i] == w1[i]);
        } else {
            assert(p[i] == s.take(a)[i - w1.len()]);
        }
    }
    let tl = s.skip(a + t.len());
    assert forall|i: int| 0 <= i < q.len() implies is_ws(#[trigger] q[i]) by {
        if i < tl.len() {
            assert(q[i] == tl[i]);
        } else {
            assert(q[i] == w2[i - tl.len()]);
        }
    }
    assert(w1 + s + w2 =~= p + t + q);
    lemma_trim_between(p, t, q);
}

/// The canonical form ignores whitespace around a command line and one
/// pair of matching outer quotes (`'` or `"`) around it: `format_command`
/// gives the same text for ` \t{s}\n `, `'{s}'`, `"{s}"` and `{s}`.
pub proof fn lemma_canonical_ignores_padding_and_quotes(w1: Seq<char>, s: Seq<char>, w2: Seq<char>)
    requires
        all_ws(w1),
        all_ws(w2),
    ensures
        canonical(w1 + s + w2) == canonical(s),
        canonical(seq!['\''] + s + seq!['\'']) == canonical(s),
        canonical(seq!['"'] + s + seq!['"']) == canonical(s),
{
    lemma_trim_ignores_padding(w1, s, w2);
    lemma_quotes_dropped('\'', s);
    lemma_quotes_dropped('"', s);
}

/// A quote pair around `s` is removed before the rest of the formatting.
proof fn lemma_quotes_dropped(c: char, s: Seq<char>)
    requires
        c == '\'' || c == '"',
    ensures
        canonical(seq![c] + s + seq![c]) == canonical(s),
{
    let x = seq![c] + s + seq![c];
    assert(!is_ws(c));
    lemma_trim_noop(x);
    assert(quoted(x));
    assert(x.subrange(1, x.len() - 1) =~= s);
    assert(strip_quotes(x) == strip_quotes(trim(s)));
}


/// What SHA-256 yields for a byte sequence.
pub uninterp spec fn sha256(data: Seq<u8>) -> Seq<u8>;

/// The lowercase hexadecimal digit for a value below 16.
pub open spec fn hex_digit(v: u8) -> char {
    if v < 10 {
        (('0' as u8) + v) as char
    } else {
        (('a' as u8) + v - 10) as char
    }
}

/// Two lowercase hexadecimal digits per byte, most significant first.
pub open spec fn hex_lower(data: Seq<u8>) -> Seq<char>
    decreases data.len(),
{
    if data.len() == 0 {
        seq![]
    } else {
        seq![hex_digit(data[0] / 16), hex_digit(data[0] % 16)] + hex_lower(data.skip(1))
    }
}

/// SHA-256 digest (`sha2::Sha256`, fed the bytes in one `update`).
/// Claimed: the digest is the named function `sha256` of the input and is
/// 32 bytes long.
#[verifier::external_body]
pub(crate) fn sha256_digest(data: &[u8]) -> (r: Vec<u8>)
    ensures
        r@ == sha256(data@),
        r@.len() == 32,
{
    let mut hasher = Sha256::new();
    hasher.update(data);
    hasher.finalize().to_vec()
}

/// `hex::encode`. Claimed: two lowercase hexadecimal digits per byte, most
/// significant first, as the crate documents.
#[verifier::external_body]
pub(crate) fn hex_encode(data: &[u8]) -> (r: String)
    ensures
        r@ == hex_lower(data@),
{
    hex::encode(data)
}

/// The identifier of a command: the hex SHA-256 of the UTF-8 bytes of its
/// canonical form.
pub open spec fn command_hash_of(command: Seq<char>) -> Seq<char> {
    hex_lower(sha256(encode_utf8(canonical(command))))
}

/// Hex SHA-256 of the canonical form of `command`.
pub fn hash_command(command: &str) -> (r: String)
    ensures
        r@ == command_hash_of(command@),
{
    let formatted = format_command(command);
    let digest = sha256_digest(formatted.as_str().as_bytes());
    hex_encode(digest.as_slice())
}

/// Two command lines with the same canonical form have the same hash; in
/// particular a command and its canonical form do.
pub proof fn lemma_hash_of_canonical(s: Seq<char>)
    ensures
        command_hash_of(canonical(s)) == command_hash_of(s),
{
    lemma_canonical_idempotent(s);
}

/// A point in time: seconds since the Unix epoch and the nanoseconds within
/// that second.
#[derive(Clone, Copy, PartialEq, Eq, Structural, Debug)]
pub struct Timestamp {
    pub secs: i64,
    pub nanos: u32,
}

/// `a` is not later than `b`.
pub open spec fn ts_le(a: Timestamp, b: Timestamp) -> bool {
    a.secs < b.secs || (a.secs == b.secs && a.nanos <= b.nanos)
}

/// `a` is strictly earlier than `b`.
pub open spec fn ts_lt(a: Timestamp, b: Timestamp) -> bool {
    a.secs < b.secs || (a.secs == b.secs && a.nanos < b.nanos)
}

impl Timestamp {
    /// Whether `self` is strictly earlier than `other`.
    pub fn is_before(&self, other: &Timestamp) -> (r: bool)
        ensures
            r == ts_lt(*self, *other),
    {
        self.secs < other.secs || (self.secs == other.secs && self.nanos < other.nanos)
    }
}

/// One recorded run of a command.
#[derive(Debug, Clone)]
pub struct CommandRecord {
    /// Command executed (canonical form).
    pub command: String,
    /// Hex SHA-256 of the command.
    pub command_hash: String,
    /// When the run finished.
    pub timestamp: Timestamp,
    /// Working directory of the run.
    pub working_dir: String,
    /// Exit code (`-1` when the process gave none).
    pub exit_code: i32,
    /// Duration in milliseconds.
    pub duration_ms: u64,
    /// Unique identifier of the record.
    pub record_id: String,
    /// Short code for quick reference, unique among runs of one command.
    pub short_code: Option<String>,
}

/// A copy of an optional string.
pub fn copy_opt(s: &Option<String>) -> (r: Option<String>)
    ensures
        r == *s,
{
    match s {
        Some(x) => Some(x.clone()),
        None => None,
    }
}

impl CommandRecord {
    /// A field-by-field copy of the record.
    pub fn duplicate(&self) -> (r: CommandRecord)
        ensures
            r == *self,
    {
        CommandRecord {
            command: self.command.clone(),
            command_hash: self.command_hash.clone(),
            timestamp: self.timestamp,
            working_dir: self.working_dir.clone(),
            exit_code: self.exit_code,
            duration_ms: self.duration_ms,
            record_id: self.record_id.clone(),
            short_code: copy_opt(&self.short_code),
        }
    }
}

/// A run together with its captured output.
#[derive(Debug, Clone)]
pub struct CommandExecution {
    /// The run's record.
    pub record: CommandRecord,
    /// Standard output.
    pub stdout: String,
    /// Standard error output.
    pub stderr: String,
    /// Where the standard output is stored.
    pub stdout_path: Option<String>,
    /// Where the standard error output is stored.
    pub stderr_path: Option<String>,
    /// Standard output was shown live while the command ran.
    pub streamed_stdout: bool,
    /// Standard error output was shown live while the command ran.
    pub streamed_stderr: bool,
}

impl CommandExecution {
    /// A field-by-field copy of the execution.
    pub fn duplicate(&self) -> (r: CommandExecution)
        ensures
            r == *self,
    {
        CommandExecution {
            record: self.record.duplicate(),
            stdout: self.stdout.clone(),
            stderr: self.stderr.clone(),
            stdout_path: copy_opt(&self.stdout_path),
            stderr_path: copy_opt(&self.stderr_path),
            streamed_stdout: self.streamed_stdout,
            streamed_stderr: self.streamed_stderr,
        }
    }
}

} // verus!
