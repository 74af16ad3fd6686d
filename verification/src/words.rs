//! Searching inside text: substrings, subsequences, whitespace-separated
//! words and lower-casing.

use vstd::prelude::*;
use crate::text::{chars_of, is_whitespace, is_ws, string_of};

verus! {

/// `n` occurs in `h` starting at position `k`.
pub open spec fn infix_at(h: Seq<char>, n: Seq<char>, k: int) -> bool {
    0 <= k && k + n.len() <= h.len() && h.subrange(k, k + n.len()) == n
}

/// `n` occurs somewhere in `h` (`str::contains` with a string pattern).
pub open spec fn has_infix(h: Seq<char>, n: Seq<char>) -> bool {
    exists|k: int| infix_at(h, n, k)
}

/// Whether `needle` occurs in `hay`.
pub fn contains_text(hay: &str, needle: &str) -> (r: bool)
    ensures
        r == has_infix(hay@, needle@),
{
    let h = chars_of(hay);
    let n = chars_of(needle);
    if n.len() > h.len() {
        proof {
            assert forall|k: int| !infix_at(hay@, needle@, k) by {}
        }
        return false;
    }
    let last = h.len() - n.len();
    let mut k: usize = 0;
    while k <= last
        invariant
            h@ == hay@,
            n@ == needle@,
            last == h@.len() - n@.len(),
            n@.len() <= h@.len(),
            h@.len() <= usize::MAX,
            forall|j: int| 0 <= j < k ==> !infix_at(hay@, needle@, j),
        decreases last + 1 - k,
    {
        let mut i: usize = 0;
        let mut same = true;
        while same && i < n.len()
            invariant
                h@ == hay@,
                n@ == needle@,
                last == h@.len() - n@.len(),
                n@.len() <= h@.len(),
                h@.len() <= usize::MAX,
                k <= last,
                i <= n@.len(),
                forall|j: int| 0 <= j < i ==> h@[k + j] == n@[j],
                !same ==> i < n@.len() && h@[k + i] != n@[i as int],
            decreases n@.len() - i + (if same { 1int } else { 0int }),
        {
            if h[k + i] == n[i] {
                i += 1;
            } else {
                same = false;
            }
        }
        if i == n.len() {
            assert(hay@.subrange(k as int, k + needle@.len()) =~= needle@);
            assert(infix_at(hay@, needle@, k as int));
            return true;
        }
        assert(hay@.subrange(k as int, k + needle@.len())[i as int] != needle@[i as int]);
        if k == last {
            proof {
                assert forall|j: int| !infix_at(hay@, needle@, j) by {
                    if 0 <= j < k {
                    } else if j == k {
                    }
                }
            }
            return false;
        }
        k += 1;
    }
    false
}

/// `n` can be read in `h` by skipping characters of `h`, matching each
/// character of `n` at its earliest chance.
pub open spec fn is_subseq(n: Seq<char>, h: Seq<char>) -> bool
    decreases h.len(),
{
    if n.len() == 0 {
        true
    } else if h.len() == 0 {
        false
    } else if n[0] == h[0] {
        is_subseq(n.skip(1), h.skip(1))
    } else {
        is_subseq(n, h.skip(1))
    }
}

/// `p` places each character of `n` at a position of `h` that holds it,
/// the positions strictly increasing.
pub open spec fn placement(n: Seq<char>, h: Seq<char>, p: Seq<int>) -> bool {
    &&& p.len() == n.len()
    &&& forall|k: int| 0 <= k < p.len() ==> 0 <= #[trigger] p[k] < h.len() && h[p[k]] == n[k]
    &&& forall|k: int, l: int| 0 <= k < l < p.len() ==> #[trigger] p[k] < #[trigger] p[l]
}

/// The characters of `n` occur in `h` in order: some placement exists.
pub open spec fn embeds(n: Seq<char>, h: Seq<char>) -> bool {
    exists|p: Seq<int>| #[trigger] placement(n, h, p)
}

/// `n` is a subsequence of `h` exactly when its characters can be placed at
/// strictly increasing positions of `h` that hold them.
pub proof fn lemma_subseq_is_embedding(n: Seq<char>, h: Seq<char>)
    ensures
        is_subseq(n, h) <==> embeds(n, h),
    decreases h.len(),
{
    if n.len() == 0 {
        assert(placement(n, h, Seq::<int>::empty()));
    } else if h.len() == 0 {
        if embeds(n, h) {
            let p = choose|p: Seq<int>| placement(n, h, p);
            assert(0 <= p[0] < h.len());
        }
    } else {
        lemma_subseq_is_embedding(n.skip(1), h.skip(1));
        lemma_subseq_is_embedding(n, h.skip(1));
        if is_subseq(n, h) {
            if n[0] == h[0] {
                let q = choose|q: Seq<int>| placement(n.skip(1), h.skip(1), q);
                let p = seq![0int] + q.map_values(|x: int| x + 1);
                assert forall|k: int| 0 <= k < p.len() implies 0 <= #[trigger] p[k] < h.len() && h[p[k]] == n[k] by {
                    if k > 0 {
                        assert(p[k] == q[k - 1] + 1);
                        assert(0 <= q[k - 1] < h.skip(1).len());
                        assert(h.skip(1)[q[k - 1]] == n.skip(1)[k - 1]);
                    }
                }
                assert forall|k: int, l: int| 0 <= k < l < p.len() implies #[trigger] p[k] < #[trigger] p[l] by {
                    assert(p[l] == q[l - 1] + 1);
                    assert(0 <= q[l - 1]);
                    if k > 0 {
                        assert(p[k] == q[k - 1] + 1);
                        assert(q[k - 1] < q[l - 1]);
                    }
                }
                assert(placement(n, h, p));
            } else {
                let q = choose|q: Seq<int>| placement(n, h.skip(1), q);
                let p = q.map_values(|x: int| x + 1);
                assert forall|k: int| 0 <= k < p.len() implies 0 <= #[trigger] p[k] < h.len() && h[p[k]] == n[k] by {
                    assert(p[k] == q[k] + 1);
                    assert(0 <= q[k] < h.skip(1).len());
                    assert(h.skip(1)[q[k]] == n[k]);
                }
                assert forall|k: int, l: int| 0 <= k < l < p.len() implies #[trigger] p[k] < #[trigger] p[l] by {
                    assert(p[k] == q[k] + 1 && p[l] == q[l] + 1);
                    assert(q[k] < q[l]);
                }
                assert(placement(n, h, p));
            }
        }
        if embeds(n, h) {
            let p = choose|p: Seq<int>| placement(n, h, p);
            if n[0] == h[0] {
                let q = p.skip(1).map_values(|x: int| x - 1);
                assert forall|k: int| 0 <= k < q.len() implies 0 <= #[trigger] q[k] < h.skip(1).len()
                    && h.skip(1)[q[k]] == n.skip(1)[k] by {
                    assert(q[k] == p[k + 1] - 1);
                    assert(p[0] < p[k + 1]);
                    assert(0 <= p[0]);
                    assert(0 <= p[k + 1] < h.len() && h[p[k + 1]] == n[k + 1]);
                }
                assert forall|k: int, l: int| 0 <= k < l < q.len() implies #[trigger] q[k] < #[trigger] q[l] by {
                    assert(q[k] == p[k + 1] - 1 && q[l] == p[l + 1] - 1);
                    assert(p[k + 1] < p[l + 1]);
                }
                assert(placement(n.skip(1), h.skip(1), q));
            } else {
                assert(0 <= p[0] < h.len() && h[p[0]] == n[0]);
                assert(p[0] != 0);
                let q = p.map_values(|x: int| x - 1);
                assert forall|k: int| 0 <= k < q.len() implies 0 <= #[trigger] q[k] < h.skip(1).len()
                    && h.skip(1)[q[k]] == n[k] by {
                    assert(q[k] == p[k] - 1);
                    assert(0 <= p[k] < h.len() && h[p[k]] == n[k]);
                    if k > 0 {
                        assert(p[0] < p[k]);
                    }
                }
                assert forall|k: int, l: int| 0 <= k < l < q.len() implies #[trigger] q[k] < #[trigger] q[l] by {
                    assert(q[k] == p[k] - 1 && q[l] == p[l] - 1);
                    assert(p[k] < p[l]);
                }
                assert(placement(n, h.skip(1), q));
            }
        }
    }
}

/// Any one character that `h` holds is a subsequence of it.
pub proof fn lemma_char_in_text_is_subseq(c: char, h: Seq<char>)
    requires
        h.contains(c),
    ensures
        is_subseq(seq![c], h),
{
    let i = choose|i: int| 0 <= i < h.len() && h[i] == c;
    assert(placement(seq![c], h, seq![i]));
    lemma_subseq_is_embedding(seq![c], h);
}

/// A text that occurs in `h` is also a subsequence of it: its characters
/// sit at consecutive positions.
pub proof fn lemma_infix_is_subseq(h: Seq<char>, n: Seq<char>)
    requires
        has_infix(h, n),
    ensures
        is_subseq(n, h),
{
    let k = choose|k: int| infix_at(h, n, k);
    let p = Seq::new(n.len(), |i: int| k + i);
    assert forall|i: int| 0 <= i < p.len() implies 0 <= #[trigger] p[i] < h.len() && h[p[i]] == n[i] by {
        assert(h.subrange(k, k + n.len())[i] == h[k + i]);
    }
    assert(placement(n, h, p));
    lemma_subseq_is_embedding(n, h);
}

/// Whether `needle` is a subsequence of `hay`.
pub fn is_subsequence(needle: &str, hay: &str) -> (r: bool)
    ensures
        r == is_subseq(needle@, hay@),
        r <==> embeds(needle@, hay@),
{
    proof {
        lemma_subseq_is_embedding(needle@, hay@);
    }
    let n = chars_of(needle);
    let h = chars_of(hay);
    let mut i: usize = 0;
    let mut j: usize = 0;
    assert(n@.skip(0) =~= n@ && h@.skip(0) =~= h@);
    while j < h.len()
        invariant
            n@ == needle@,
            h@ == hay@,
            i <= n@.len(),
            j <= h@.len(),
            is_subseq(n@.skip(i as int), h@.skip(j as int)) == is_subseq(needle@, hay@),
            is_subseq(needle@, hay@) <==> embeds(needle@, hay@),
        decreases h@.len() - j,
    {
        if i == n.len() {
            return true;
        }
        assert(n@.skip(i as int).skip(1) =~= n@.skip(i + 1));
        assert(h@.skip(j as int).skip(1) =~= h@.skip(j + 1));
        if n[i] == h[j] {
            i += 1;
        }
        j += 1;
    }
    i == n.len()
}

/// A separator of words: whitespace, and also `,` when `commas` is set.
pub open spec fn is_sep(c: char, commas: bool) -> bool {
    is_ws(c) || (commas && c == ',')
}

/// Length of the run of non-separator characters at the front of `s`.
pub open spec fn word_len(s: Seq<char>, commas: bool) -> nat
    decreases s.len(),
{
    if s.len() > 0 && !is_sep(s[0], commas) {
        1 + word_len(s.skip(1), commas)
    } else {
        0
    }
}

pub proof fn lemma_word_len(s: Seq<char>, commas: bool)
    ensures
        word_len(s, commas) <= s.len(),
        s.len() > 0 && !is_sep(s[0], commas) ==> word_len(s, commas) >= 1,
        forall|k: int| 0 <= k < word_len(s, commas) ==> !is_sep(#[trigger] s[k], commas),
        word_len(s, commas) < s.len() ==> is_sep(s[word_len(s, commas) as int], commas),
    decreases s.len(),
{
    if s.len() > 0 && !is_sep(s[0], commas) {
        lemma_word_len(s.skip(1), commas);
        assert forall|k: int| 0 <= k < word_len(s, commas) implies !is_sep(#[trigger] s[k], commas) by {
            if k > 0 {
                assert(s[k] == s.skip(1)[k - 1]);
            }
        }
        if word_len(s, commas) < s.len() {
            assert(s[word_len(s, commas) as int] == s.skip(1)[word_len(s.skip(1), commas) as int]);
        }
    }
}

/// The maximal runs of non-separator characters of `s`, in order.
pub open spec fn words_by(s: Seq<char>, commas: bool) -> Seq<Seq<char>>
    decreases s.len(),
{
    if s.len() == 0 {
        seq![]
    } else if is_sep(s[0], commas) {
        words_by(s.skip(1), commas)
    } else {
        proof {
            lemma_word_len(s, commas);
        }
        seq![s.take(word_len(s, commas) as int)] + words_by(s.skip(word_len(s, commas) as int), commas)
    }
}

/// The maximal runs of non-whitespace characters of `s`, in order
/// (`str::split_whitespace`).
pub open spec fn words(s: Seq<char>) -> Seq<Seq<char>> {
    words_by(s, false)
}

/// The texts of `v`, in order.
pub open spec fn texts(v: Seq<String>) -> Seq<Seq<char>> {
    v.map_values(|s: String| s@)
}

/// The runs of non-separator characters of `s` (see `words_by`).
pub fn split_words_by(s: &str, commas: bool) -> (r: Vec<String>)
    ensures
        texts(r@) == words_by(s@, commas),
{
    let cs = chars_of(s);
    let mut out: Vec<String> = Vec::new();
    let mut i: usize = 0;
    assert(cs@.skip(0) =~= s@);
    assert(texts(out@) + words_by(cs@.skip(0), commas) =~= words_by(s@, commas));
    while i < cs.len()
        invariant
            cs@ == s@,
            i <= cs@.len(),
            texts(out@) + words_by(cs@.skip(i as int), commas) == words_by(s@, commas),
        decreases cs@.len() - i,
    {
        let ghost rest = cs@.skip(i as int);
        if is_whitespace(cs[i]) || (commas && cs[i] == ',') {
            assert(rest.skip(1) =~= cs@.skip(i + 1));
            i += 1;
        } else {
            proof {
                lemma_word_len(rest, commas);
            }
            let mut j = i;
            while j < cs.len() && !(is_whitespace(cs[j]) || (commas && cs[j] == ','))
                invariant
                    cs@ == s@,
                    i <= j <= cs@.len(),
                    rest == cs@.skip(i as int),
                    j - i <= word_len(rest, commas),
                    word_len(rest, commas) <= rest.len(),
                    word_len(rest, commas) < rest.len() ==> is_sep(rest[word_len(rest, commas) as int], commas),
                    forall|k: int| i <= k < j ==> !is_sep(#[trigger] cs@[k], commas),
                decreases cs@.len() - j,
            {
                proof {
                    if j - i == word_len(rest, commas) {
                        assert(rest[word_len(rest, commas) as int] == cs@[j as int]);
                    }
                }
                j += 1;
            }
            proof {
                if j - i < word_len(rest, commas) {
                    assert(!is_sep(rest[(j - i) as int], commas));
                    assert(rest[(j - i) as int] == cs@[j as int]);
                }
            }
            let w = string_of(&cs, i, j);
            let ghost before = out@;
            out.push(w);
            proof {
                assert(rest.take(word_len(rest, commas) as int) =~= cs@.subrange(i as int, j as int));
                assert(rest.skip(word_len(rest, commas) as int) =~= cs@.skip(j as int));
                assert(texts(out@) =~= texts(before).push(w@));
                assert(words_by(rest, commas) == seq![rest.take(word_len(rest, commas) as int)] + words_by(
                    rest.skip(word_len(rest, commas) as int),
                    commas,
                ));
                assert(texts(out@) + words_by(cs@.skip(j as int), commas) =~= texts(before) + words_by(rest, commas));
            }
            i = j;
        }
    }
    assert(cs@.skip(i as int) =~= Seq::<char>::empty());
    assert(texts(out@) + words_by(cs@.skip(i as int), commas) =~= texts(out@));
    out
}

/// The whitespace-separated words of `s`.
pub fn split_words(s: &str) -> (r: Vec<String>)
    ensures
        texts(r@) == words(s@),
{
    split_words_by(s, false)
}

/// The lower-case form of a text, as `str::to_lowercase` computes it with
/// the Unicode case tables.
pub uninterp spec fn lowercase(s: Seq<char>) -> Seq<char>;

/// `str::to_lowercase`. Claimed: the result is the named function
/// `lowercase` of the text, and it is empty exactly when the text is (each
/// character maps to one or more characters, as the documentation of
/// `char::to_lowercase` states).
#[verifier::external_body]
pub(crate) fn to_lower(s: &str) -> (r: String)
    ensures
        r@ == lowercase(s@),
        r@.len() == 0 <==> s@.len() == 0,
{
    s.to_lowercase()
}

} // verus!
