//! Character-level helpers shared by the rest of the library: turning
//! strings into character sequences and back, the Unicode `White_Space`
//! predicate, trimming, and decimal rendering of integers.

use vstd::prelude::*;
use vstd::utf8::{
    encode_utf8, encode_utf8_valid_utf8, is_char_boundary, is_char_boundary_iff_not_is_continuation_byte,
    is_char_boundary_start_end_of_seq, valid_utf8_split,
};

verus! {

/// Unicode `White_Space`, which is what `char::is_whitespace` tests.
pub open spec fn is_ws(c: char) -> bool {
    let u = c as u32;
    ||| 9 <= u <= 13
    ||| u == 32
    ||| u == 0x85
    ||| u == 0xA0
    ||| u == 0x1680
    ||| 0x2000 <= u <= 0x200A
    ||| u == 0x2028
    ||| u == 0x2029
    ||| u == 0x202F
    ||| u == 0x205F
    ||| u == 0x3000
}

/// Whether `c` is whitespace in the sense of `char::is_whitespace`.
pub fn is_whitespace(c: char) -> (b: bool)
    ensures
        b == is_ws(c),
{
    let u = c as u32;
    (9 <= u && u <= 13) || u == 32 || u == 0x85 || u == 0xA0 || u == 0x1680 || (0x2000 <= u
        && u <= 0x200A) || u == 0x2028 || u == 0x2029 || u == 0x202F || u == 0x205F || u
        == 0x3000
}

/// Number of whitespace characters at the front of `s`.
pub open spec fn lead_ws(s: Seq<char>) -> nat
    decreases s.len(),
{
    if s.len() > 0 && is_ws(s[0]) {
        1 + lead_ws(s.skip(1))
    } else {
        0
    }
}

/// Number of whitespace characters at the end of `s`.
pub open spec fn trail_ws(s: Seq<char>) -> nat
    decreases s.len(),
{
    if s.len() > 0 && is_ws(s.last()) {
        1 + trail_ws(s.drop_last())
    } else {
        0
    }
}

/// `s` without leading whitespace (`str::trim_start`).
pub open spec fn trim_start(s: Seq<char>) -> Seq<char> {
    s.skip(lead_ws(s) as int)
}

/// `s` without trailing whitespace (`str::trim_end`).
pub open spec fn trim_end(s: Seq<char>) -> Seq<char> {
    s.take(s.len() - trail_ws(s))
}

/// `s` without leading and trailing whitespace (`str::trim`).
pub open spec fn trim(s: Seq<char>) -> Seq<char> {
    trim_end(trim_start(s))
}

pub proof fn lemma_lead_ws(s: Seq<char>)
    ensures
        lead_ws(s) <= s.len(),
        forall|k: int| 0 <= k < lead_ws(s) ==> is_ws(#[trigger] s[k]),
        lead_ws(s) < s.len() ==> !is_ws(s[lead_ws(s) as int]),
    decreases s.len(),
{
    if s.len() > 0 && is_ws(s[0]) {
        lemma_lead_ws(s.skip(1));
        assert forall|k: int| 0 <= k < lead_ws(s) implies is_ws(#[trigger] s[k]) by {
            if k > 0 {
                assert(s[k] == s.skip(1)[k - 1]);
            }
        }
        if lead_ws(s) < s.len() {
            assert(s[lead_ws(s) as int] == s.skip(1)[lead_ws(s.skip(1)) as int]);
        }
    }
}

pub proof fn lemma_trail_ws(s: Seq<char>)
    ensures
        trail_ws(s) <= s.len(),
        forall|k: int| s.len() - trail_ws(s) <= k < s.len() ==> is_ws(#[trigger] s[k]),
        trail_ws(s) < s.len() ==> !is_ws(s[s.len() - trail_ws(s) - 1]),
    decreases s.len(),
{
    if s.len() > 0 && is_ws(s.last()) {
        lemma_trail_ws(s.drop_last());
        assert forall|k: int| s.len() - trail_ws(s) <= k < s.len() implies is_ws(#[trigger] s[k]) by {
            if k < s.len() - 1 {
                assert(s[k] == s.drop_last()[k]);
            }
        }
        if trail_ws(s) < s.len() {
            assert(s[s.len() - trail_ws(s) - 1] == s.drop_last()[s.drop_last().len() - trail_ws(
                s.drop_last(),
            ) - 1]);
        }
    }
}

/// A count `n` of leading whitespace characters is `lead_ws` exactly when the
/// first `n` characters are whitespace and the next one is not.
pub proof fn lemma_lead_ws_unique(s: Seq<char>, n: int)
    requires
        0 <= n <= s.len(),
        forall|k: int| 0 <= k < n ==> is_ws(#[trigger] s[k]),
        n < s.len() ==> !is_ws(s[n]),
    ensures
        lead_ws(s) == n,
    decreases n,
{
    if n > 0 {
        assert(is_ws(s[0]));
        lemma_lead_ws_unique(s.skip(1), n - 1);
    } else if s.len() > 0 {
        assert(!is_ws(s[0]));
    }
}

pub proof fn lemma_trail_ws_unique(s: Seq<char>, n: int)
    requires
        0 <= n <= s.len(),
        forall|k: int| s.len() - n <= k < s.len() ==> is_ws(#[trigger] s[k]),
        n < s.len() ==> !is_ws(s[s.len() - n - 1]),
    ensures
        trail_ws(s) == n,
    decreases n,
{
    if n > 0 {
        assert(is_ws(s[s.len() - 1]));
        let d = s.drop_last();
        assert forall|k: int| d.len() - (n - 1) <= k < d.len() implies is_ws(#[trigger] d[k]) by {
            assert(d[k] == s[k]);
        }
        if n - 1 < d.len() {
            assert(d[d.len() - (n - 1) - 1] == s[s.len() - n - 1]);
        }
        lemma_trail_ws_unique(d, n - 1);
    } else if s.len() > 0 {
        assert(!is_ws(s[s.len() - 1]));
    }
}

/// `trim(s)` is the part of `s` between the first and the last
/// non-whitespace characters; it neither starts nor ends with whitespace.
pub proof fn lemma_trim(s: Seq<char>)
    ensures
        trim(s).len() <= s.len(),
        trim(s).len() > 0 ==> !is_ws(trim(s)[0]) && !is_ws(trim(s).last()),
        trim(s) == s.subrange(lead_ws(s) as int, lead_ws(s) + trim(s).len() as int),
{
    lemma_lead_ws(s);
    let a = trim_start(s);
    lemma_lead_ws(a);
    lemma_trail_ws(a);
    let t = trim(s);
    assert(t =~= s.subrange(lead_ws(s) as int, lead_ws(s) + t.len() as int));
    if t.len() > 0 {
        assert(t[0] == s[lead_ws(s) as int]);
        assert(t.last() == a[a.len() - trail_ws(a) - 1]);
    }
}

/// A sequence that neither starts nor ends with whitespace is its own trim.
pub proof fn lemma_trim_noop(s: Seq<char>)
    requires
        s.len() > 0 ==> !is_ws(s[0]) && !is_ws(s.last()),
    ensures
        trim(s) == s,
{
    lemma_lead_ws_unique(s, 0);
    assert(trim_start(s) =~= s);
    lemma_trail_ws_unique(s, 0);
    assert(trim_end(s) =~= s);
}

/// The characters of `s`, in order.
pub fn chars_of(s: &str) -> (r: Vec<char>)
    ensures
        r@ == s@,
{
    let mut v: Vec<char> = Vec::new();
    for c in it: s.chars()
        invariant
            v@ == it.seq().take(it.index()),
    {
        v.push(c);
    }
    v
}

/// Appends one character (`String::push`).
#[verifier::external_body]
pub(crate) fn push_char(s: &mut String, c: char)
    ensures
        final(s)@ == old(s)@.push(c),
{
    s.push(c);
}

/// Appends a string slice (`String::push_str`).
#[verifier::external_body]
pub(crate) fn push_str(s: &mut String, t: &str)
    ensures
        final(s)@ == old(s)@ + t@,
{
    s.push_str(t);
}

/// The string made of the characters `cs[lo..hi]`.
pub fn string_of(cs: &Vec<char>, lo: usize, hi: usize) -> (r: String)
    requires
        lo <= hi <= cs.len(),
    ensures
        r@ == cs@.subrange(lo as int, hi as int),
{
    let mut r = String::new();
    let mut i = lo;
    while i < hi
        invariant
            lo <= i <= hi <= cs.len(),
            r@ == cs@.subrange(lo as int, i as int),
        decreases hi - i,
    {
        push_char(&mut r, cs[i]);
        i += 1;
        assert(r@ =~= cs@.subrange(lo as int, i as int));
    }
    r
}

/// Copy of a string slice as an owned string.
pub fn owned(s: &str) -> (r: String)
    ensures
        r@ == s@,
{
    let mut r = String::new();
    push_str(&mut r, s);
    assert(r@ =~= s@);
    r
}

/// Whether two strings hold the same characters.
pub fn same_text(a: &str, b: &str) -> (r: bool)
    ensures
        r == (a@ == b@),
{
    let x = chars_of(a);
    let y = chars_of(b);
    if x.len() != y.len() {
        return false;
    }
    let mut i: usize = 0;
    while i < x.len()
        invariant
            x@ == a@,
            y@ == b@,
            x.len() == y.len(),
            i <= x.len(),
            forall|k: int| 0 <= k < i ==> x@[k] == y@[k],
        decreases x.len() - i,
    {
        if x[i] != y[i] {
            return false;
        }
        i += 1;
    }
    assert(x@ =~= y@);
    true
}

/// Index of the first non-whitespace character of `cs[lo..hi]` (or `hi`).
pub fn skip_ws(cs: &Vec<char>, lo: usize, hi: usize) -> (j: usize)
    requires
        lo <= hi <= cs.len(),
    ensures
        lo <= j <= hi,
        j == lo + lead_ws(cs@.subrange(lo as int, hi as int)),
{
    let mut j = lo;
    while j < hi && is_whitespace(cs[j])
        invariant
            lo <= j <= hi <= cs.len(),
            forall|k: int| lo <= k < j ==> is_ws(#[trigger] cs@[k]),
        decreases hi - j,
    {
        j += 1;
    }
    let ghost s = cs@.subrange(lo as int, hi as int);
    assert forall|k: int| 0 <= k < j - lo implies is_ws(#[trigger] s[k]) by {
        assert(s[k] == cs@[lo + k]);
    }
    if j < hi {
        assert(s[j - lo] == cs@[j as int]);
    }
    proof { lemma_lead_ws_unique(s, j - lo); }
    j
}

/// Index just past the last non-whitespace character of `cs[lo..hi]` (or `lo`).
pub fn skip_ws_back(cs: &Vec<char>, lo: usize, hi: usize) -> (j: usize)
    requires
        lo <= hi <= cs.len(),
    ensures
        lo <= j <= hi,
        j == hi - trail_ws(cs@.subrange(lo as int, hi as int)),
{
    let mut j = hi;
    while j > lo && is_whitespace(cs[j - 1])
        invariant
            lo <= j <= hi <= cs.len(),
            forall|k: int| j <= k < hi ==> is_ws(#[trigger] cs@[k]),
        decreases j - lo,
    {
        j -= 1;
    }
    let ghost s = cs@.subrange(lo as int, hi as int);
    assert forall|k: int| s.len() - (hi - j) <= k < s.len() implies is_ws(#[trigger] s[k]) by {
        assert(s[k] == cs@[lo + k]);
    }
    if j > lo {
        assert(s[s.len() - (hi - j) - 1] == cs@[j - 1]);
    }
    proof { lemma_trail_ws_unique(s, (hi - j) as int); }
    j
}

/// Bounds `(a, b)` with `cs[a..b] == trim(cs[lo..hi])`.
pub fn trim_bounds(cs: &Vec<char>, lo: usize, hi: usize) -> (r: (usize, usize))
    requires
        lo <= hi <= cs.len(),
    ensures
        lo <= r.0 <= r.1 <= hi,
        cs@.subrange(r.0 as int, r.1 as int) == trim(cs@.subrange(lo as int, hi as int)),
{
    let a = skip_ws(cs, lo, hi);
    let b = skip_ws_back(cs, a, hi);
    let ghost s = cs@.subrange(lo as int, hi as int);
    assert(trim_start(s) =~= cs@.subrange(a as int, hi as int));
    assert(trim(s) =~= cs@.subrange(a as int, b as int));
    (a, b)
}


/// `s` without leading and trailing whitespace (`str::trim`).
pub fn trim_str(s: &str) -> (r: String)
    ensures
        r@ == trim(s@),
{
    let cs = chars_of(s);
    let (a, b) = trim_bounds(&cs, 0, cs.len());
    assert(cs@.subrange(0, cs@.len() as int) =~= s@);
    string_of(&cs, a, b)
}

/// Whether `s` holds the character `c` (`str::contains` with a `char`).
pub fn has_char(s: &str, c: char) -> (r: bool)
    ensures
        r == s@.contains(c),
{
    let cs = chars_of(s);
    let mut i: usize = 0;
    while i < cs.len()
        invariant
            cs@ == s@,
            i <= cs@.len(),
            forall|k: int| 0 <= k < i ==> cs@[k] != c,
        decreases cs@.len() - i,
    {
        if cs[i] == c {
            assert(s@[i as int] == c);
            return true;
        }
        i += 1;
    }
    false
}

/// UTF-8 encoding distributes over concatenation.
pub proof fn lemma_encode_concat(a: Seq<char>, b: Seq<char>)
    ensures
        encode_utf8(a + b) == encode_utf8(a) + encode_utf8(b),
    decreases a.len(),
{
    if a.len() == 0 {
        assert(a + b =~= b);
        assert(encode_utf8(a) =~= Seq::<u8>::empty());
        assert(encode_utf8(a) + encode_utf8(b) =~= encode_utf8(b));
    } else {
        lemma_encode_concat(a.drop_first(), b);
        assert((a + b).drop_first() =~= a.drop_first() + b);
        assert((a + b)[0] == a[0]);
        assert(encode_utf8(a + b) =~= encode_utf8(a) + encode_utf8(b));
    }
}

/// `s[a..b]` for byte positions `a` and `b` on character boundaries.
pub fn byte_slice(s: &str, a: usize, b: usize) -> (r: &str)
    requires
        a <= b <= encode_utf8(s@).len(),
        is_char_boundary(encode_utf8(s@), a as int),
        is_char_boundary(encode_utf8(s@), b as int),
    ensures
        encode_utf8(r@) == encode_utf8(s@).subrange(a as int, b as int),
{
    let ghost t = encode_utf8(s@);
    proof {
        encode_utf8_valid_utf8(s@);
    }
    let (pre, _) = s.split_at(b);
    proof {
        let u = t.subrange(0, b as int);
        valid_utf8_split(t, b as int);
        assert(encode_utf8(pre@) =~= u);
        if a < b {
            is_char_boundary_iff_not_is_continuation_byte(t, a as int);
            is_char_boundary_iff_not_is_continuation_byte(u, a as int);
            assert(u[a as int] == t[a as int]);
        } else {
            is_char_boundary_start_end_of_seq(u);
        }
    }
    let (_, mid) = pre.split_at(a);
    proof {
        assert(encode_utf8(mid@) =~= t.subrange(a as int, b as int));
    }
    mid
}


/// The decimal digit character for `d < 10`.
pub open spec fn digit_of(d: nat) -> char {
    ((('0' as nat) + d) as u8) as char
}

/// Decimal numeral of `n`, without leading zeros.
pub open spec fn dec_digits(n: nat) -> Seq<char>
    decreases n,
{
    if n < 10 {
        seq![digit_of(n)]
    } else {
        dec_digits(n / 10) + seq![digit_of(n % 10)]
    }
}

/// Decimal numeral of `n` (what `n.to_string()` gives).
pub fn decimal(n: u64) -> (r: String)
    ensures
        r@ == dec_digits(n as nat),
{
    let mut buf: Vec<char> = Vec::new();
    let mut m = n;
    assert(dec_digits(m as nat) + buf@ =~= dec_digits(n as nat));
    while m >= 10
        invariant
            dec_digits(m as nat) + buf@ == dec_digits(n as nat),
        decreases m,
    {
        let d = m % 10;
        let c = (48u8 + d as u8) as char;
        let ghost before = buf@;
        buf.insert(0, c);
        assert(dec_digits(m as nat) == dec_digits((m / 10) as nat) + seq![c]);
        m = m / 10;
        assert(dec_digits(m as nat) + buf@ =~= dec_digits(n as nat));
    }
    let c = (48u8 + m as u8) as char;
    let ghost before = buf@;
    buf.insert(0, c);
    assert(buf@ =~= dec_digits(m as nat) + before);
    string_of(&buf, 0, buf.len())
}

/// Decimal numeral of a signed `n`, with a leading `-` when negative.
pub open spec fn signed_digits(n: int) -> Seq<char> {
    if n < 0 {
        seq!['-'] + dec_digits((-n) as nat)
    } else {
        dec_digits(n as nat)
    }
}

/// Decimal numeral of a signed number (what `n.to_string()` gives).
pub fn signed_decimal(n: i64) -> (r: String)
    ensures
        r@ == signed_digits(n as int),
{
    if n < 0 {
        let mag: u64 = if n == i64::MIN {
            9223372036854775808u64
        } else {
            (-n) as u64
        };
        let mut r = String::new();
        push_char(&mut r, '-');
        let d = decimal(mag);
        push_str(&mut r, d.as_str());
        r
    } else {
        decimal(n as u64)
    }
}

/// `s` with every occurrence of the non-empty `p` replaced by `r`, scanning
/// left to right without overlaps (what `str::replace` does).
pub open spec fn replaced(s: Seq<char>, p: Seq<char>, r: Seq<char>) -> Seq<char>
    decreases s.len(),
{
    if s.len() == 0 || p.len() == 0 {
        s
    } else if p.len() <= s.len() && s.take(p.len() as int) == p {
        r + replaced(s.skip(p.len() as int), p, r)
    } else {
        seq![s[0]] + replaced(s.skip(1), p, r)
    }
}

/// `s` with every occurrence of `p` replaced by `r` (`str::replace`).
pub fn replace_all(s: &str, p: &str, r: &str) -> (out: String)
    requires
        p@.len() > 0,
    ensures
        out@ == replaced(s@, p@, r@),
{
    let cs = chars_of(s);
    let ps = chars_of(p);
    let n = cs.len();
    let mut out = String::new();
    let mut i: usize = 0;
    assert(cs@.skip(0) =~= s@);
    assert(out@ + replaced(cs@.skip(0), p@, r@) =~= replaced(s@, p@, r@));
    while i < n
        invariant
            cs@ == s@,
            ps@ == p@,
            ps@.len() > 0,
            n == cs@.len(),
            i <= n,
            out@ + replaced(cs@.skip(i as int), p@, r@) == replaced(s@, p@, r@),
        decreases n - i,
    {
        let ghost rest = cs@.skip(i as int);
        let mut hit = ps.len() <= n - i;
        let mut k: usize = 0;
        while hit && k < ps.len()
            invariant
                cs@ == s@,
                ps@ == p@,
                n == cs@.len(),
                i < n,
                k <= ps@.len(),
                hit ==> ps@.len() <= n - i,
                hit ==> forall|j: int| 0 <= j < k ==> cs@[i + j] == ps@[j],
                !hit ==> !(ps@.len() <= rest.len() && rest.take(ps@.len() as int) == ps@),
                rest == cs@.skip(i as int),
            decreases ps@.len() - k + (if hit { 1int } else { 0int }),
        {
            if cs[i + k] != ps[k] {
                hit = false;
                assert(rest.take(ps@.len() as int)[k as int] == cs@[i + k]);
            } else {
                k += 1;
            }
        }
        if hit {
            assert(rest.take(ps@.len() as int) =~= ps@);
            push_str(&mut out, r);
            assert(rest.skip(ps@.len() as int) =~= cs@.skip(i + ps@.len()));
            i += ps.len();
        } else {
            push_char(&mut out, cs[i]);
            assert(rest.skip(1) =~= cs@.skip(i + 1));
            i += 1;
        }
    }
    assert(cs@.skip(i as int) =~= Seq::<char>::empty());
    out
}

} // verus!
