//! File-system paths as text: joining, components, equality and order as
//! `std::path` defines them (Unix conventions).

use vstd::prelude::*;
use crate::text::{chars_of, push_char, push_str, string_of};
use crate::words::texts;

verus! {

/// `PathBuf::push`: an absolute component replaces the path; otherwise a
/// `/` is inserted unless the path is empty or already ends with one.
pub open spec fn path_join(base: Seq<char>, comp: Seq<char>) -> Seq<char> {
    if comp.len() > 0 && comp[0] == '/' {
        comp
    } else if base.len() == 0 || base.last() == '/' {
        base + comp
    } else {
        base + seq!['/'] + comp
    }
}

/// `base` joined with `comp` (`Path::join`).
pub fn join(base: &str, comp: &str) -> (r: String)
    ensures
        r@ == path_join(base@, comp@),
{
    let b = chars_of(base);
    let c = chars_of(comp);
    if c.len() > 0 && c[0] == '/' {
        return string_of(&c, 0, c.len());
    }
    let mut r = string_of(&b, 0, b.len());
    if !(b.len() == 0 || b[b.len() - 1] == '/') {
        push_char(&mut r, '/');
    }
    push_str(&mut r, comp);
    proof {
        assert(b@.subrange(0, b@.len() as int) =~= b@);
        assert(c@.subrange(0, c@.len() as int) =~= c@);
    }
    r
}

/// The text of an optional string.
pub open spec fn opt_view(o: Option<String>) -> Option<Seq<char>> {
    match o {
        Some(t) => Some(t@),
        None => None,
    }
}

/// Whether two texts name the same path, comparing them component by
/// component as `Path`'s `==` does.
pub uninterp spec fn path_eq(a: Seq<char>, b: Seq<char>) -> bool;

/// `Path::new(a) == Path::new(b)`. Claimed: the answer is the named
/// function `path_eq`, and identical texts are equal paths (`Path`'s
/// equality is reflexive).
#[verifier::external_body]
pub(crate) fn same_path(a: &str, b: &str) -> (r: bool)
    ensures
        r == path_eq(a@, b@),
        a@ == b@ ==> r,
{
    std::path::Path::new(a) == std::path::Path::new(b)
}

/// Whether path `a` comes before path `b` in `Path`'s order (component by
/// component).
pub uninterp spec fn path_lt(a: Seq<char>, b: Seq<char>) -> bool;

/// `Path::new(a) < Path::new(b)`. Claimed: the answer is the named function
/// `path_lt`, and, as `Ord` documents for `Path` (a total order that agrees
/// with its `==`), a path before another is neither after it nor equal to
/// it, and of two paths that are not equal one comes before the other.
#[verifier::external_body]
pub(crate) fn path_before(a: &str, b: &str) -> (r: bool)
    ensures
        r == path_lt(a@, b@),
        r ==> !path_lt(b@, a@) && !path_eq(a@, b@),
        !r ==> path_eq(a@, b@) || path_lt(b@, a@),
{
    std::path::Path::new(a) < std::path::Path::new(b)
}

/// Each path comes before the next in `Path`'s order.
pub open spec fn paths_ascending(s: Seq<Seq<char>>) -> bool {
    forall|i: int| 0 <= i < s.len() - 1 ==> path_lt(#[trigger] s[i], s[i + 1])
}

/// Some path of `r` is `p`, or equal to it as a path.
pub open spec fn covered(r: Seq<Seq<char>>, p: Seq<char>) -> bool {
    exists|j: int| 0 <= j < r.len() && (r[j] == p || path_eq(#[trigger] r[j], p))
}

/// `r` holds the paths of `ps`, each once and in `Path`'s order: each
/// comes before the next, each is one of `ps`, and each of `ps` is one of
/// them or equal to one as a path.
pub open spec fn distinct_sorted_paths(ps: Seq<Seq<char>>, r: Seq<Seq<char>>) -> bool {
    &&& paths_ascending(r)
    &&& forall|j: int| 0 <= j < r.len() ==> ps.contains(#[trigger] r[j])
    &&& forall|i: int| 0 <= i < ps.len() ==> #[trigger] covered(r, ps[i])
}

/// What the first `i` of `ps` hold, the first `i + 1` hold too.
proof fn lemma_take_grows(ps: Seq<Seq<char>>, i: int, x: Seq<char>)
    requires
        0 <= i < ps.len(),
        ps.take(i).contains(x),
    ensures
        ps.take(i + 1).contains(x),
{
    let q = choose|q: int| 0 <= q < ps.take(i).len() && ps.take(i)[q] == x;
    assert(ps.take(i + 1)[q] == x);
}

/// The paths, each kept once and sorted, as a set of `PathBuf`s collected
/// into a sorted list holds them (see `distinct_sorted_paths`).
pub fn sort_paths(paths: &Vec<String>) -> (r: Vec<String>)
    ensures
        distinct_sorted_paths(texts(paths@), texts(r@)),
{
    let ghost ps = texts(paths@);
    let mut out: Vec<String> = Vec::new();
    let mut i: usize = 0;
    while i < paths.len()
        invariant
            ps == texts(paths@),
            i <= paths@.len(),
            distinct_sorted_paths(ps.take(i as int), texts(out@)),
        decreases paths@.len() - i,
    {
        let p = &paths[i];
        let ghost s = texts(out@);
        let ghost before = ps.take(i as int);
        let ghost after = ps.take(i + 1);
        assert(after[i as int] == p@);
        let mut j: usize = 0;
        loop
            invariant
                s == texts(out@),
                j <= out@.len(),
                j > 0 ==> path_lt(s[j - 1], p@),
            ensures
                j <= out@.len(),
                j > 0 ==> path_lt(s[j - 1], p@),
                j < out@.len() ==> path_eq(s[j as int], p@) || path_lt(p@, s[j as int]),
            decreases out@.len() - j,
        {
            if j >= out.len() {
                break;
            }
            if !path_before(out[j].as_str(), p.as_str()) {
                break;
            }
            j += 1;
        }
        let dup = j < out.len() && same_path(out[j].as_str(), p.as_str());
        if !dup {
            out.insert(j, p.clone());
            proof {
                let t = texts(out@);
                assert(t =~= s.insert(j as int, p@));
                assert forall|k: int| 0 <= k < t.len() - 1 implies path_lt(#[trigger] t[k], t[k + 1]) by {
                    if k + 1 < j {
                        assert(t[k] == s[k] && t[k + 1] == s[k + 1]);
                    } else if k + 1 == j {
                        assert(t[k] == s[k] && t[k + 1] == p@);
                    } else if k == j {
                        assert(t[k] == p@ && t[k + 1] == s[k]);
                    } else {
                        assert(t[k] == s[k - 1] && t[k + 1] == s[k]);
                    }
                }
                assert forall|m: int| 0 <= m < t.len() implies after.contains(#[trigger] t[m]) by {
                    if m < j {
                        assert(t[m] == s[m]);
                        assert(before.contains(s[m]));
                        lemma_take_grows(ps, i as int, s[m]);
                    } else if m == j {
                        assert(t[m] == after[i as int]);
                    } else {
                        assert(t[m] == s[m - 1]);
                        assert(before.contains(s[m - 1]));
                        lemma_take_grows(ps, i as int, s[m - 1]);
                    }
                }
                assert forall|k: int| 0 <= k < i + 1 implies #[trigger] covered(t, after[k]) by {
                    if k == i {
                        assert(t[j as int] == after[k]);
                    } else {
                        assert(after[k] == before[k]);
                        assert(covered(s, before[k]));
                        let m0 = choose|m: int| 0 <= m < s.len() && (s[m] == before[k] || path_eq(#[trigger] s[m], before[k]));
                        if m0 < j {
                            assert(t[m0] == s[m0]);
                        } else {
                            assert(t[m0 + 1] == s[m0]);
                        }
                    }
                }
            }
        } else {
            proof {
                assert(texts(out@) == s);
                assert forall|m: int| 0 <= m < s.len() implies after.contains(#[trigger] s[m]) by {
                    assert(before.contains(s[m]));
                    lemma_take_grows(ps, i as int, s[m]);
                }
                assert forall|k: int| 0 <= k < i + 1 implies #[trigger] covered(s, after[k]) by {
                    if k == i {
                        assert(path_eq(s[j as int], after[k]));
                    } else {
                        assert(after[k] == before[k]);
                        assert(covered(s, before[k]));
                    }
                }
            }
        }
        i += 1;
    }
    assert(ps.take(i as int) =~= ps);
    out
}

/// Whether the file name of a path has an extension, as
/// `Path::extension` decides.
pub uninterp spec fn path_has_extension(p: Seq<char>) -> bool;

/// `Path::new(p).extension().is_some()`. Claimed: the answer is the named
/// function `path_has_extension`.
#[verifier::external_body]
pub(crate) fn has_extension(p: &str) -> (r: bool)
    ensures
        r == path_has_extension(p@),
{
    std::path::Path::new(p).extension().is_some()
}

/// The path that leads from `base` to `path`, as
/// `pathdiff::diff_paths` computes it, as text.
pub uninterp spec fn relative_path(path: Seq<char>, base: Seq<char>) -> Option<Seq<char>>;

/// `pathdiff::diff_paths(path, base)`, as text. Claimed: the answer is the
/// named function `relative_path` (the inputs are text, so the result's
/// components are text too and nothing is lost converting it).
#[verifier::external_body]
pub(crate) fn diff_paths_text(path: &str, base: &str) -> (r: Option<String>)
    ensures
        opt_view(r) == relative_path(path@, base@),
{
    pathdiff::diff_paths(path, base).map(|p| p.to_string_lossy().into_owned())
}

} // verus!
