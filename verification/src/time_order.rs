//! Stable ordering of items by timestamp.

use vstd::prelude::*;
use crate::storage::{Timestamp, ts_lt};
use vstd::set_lib::{lemma_int_range, lemma_subset_equality, set_int_range};

verus! {

/// `src` is a permutation of `0..n`.
pub open spec fn is_perm(src: Seq<int>, n: int) -> bool {
    &&& src.len() == n
    &&& forall|i: int| 0 <= i < n ==> 0 <= #[trigger] src[i] < n
    &&& forall|i: int, j: int| 0 <= i < j < n ==> src[i] != src[j]
}

/// Some position of `src` below `n` holds `j`.
pub open spec fn reached(src: Seq<int>, n: int, j: int) -> bool {
    exists|i: int| 0 <= i < n && #[trigger] src[i] == j
}

/// A permutation of `0..n` reaches every position.
pub proof fn lemma_perm_onto(src: Seq<int>, n: int)
    requires
        is_perm(src, n),
        n >= 0,
    ensures
        forall|j: int| 0 <= j < n ==> #[trigger] reached(src, n, j),
{
    let s = src.to_set();
    assert(src.no_duplicates()) by {
        assert forall|i: int, j: int| 0 <= i < src.len() && 0 <= j < src.len() && i != j implies src[i]
            != src[j] by {
            if i < j {
            } else {
                assert(src[j] != src[i]);
            }
        }
    }
    src.unique_seq_to_set();
    lemma_int_range(0, n);
    assert(s.subset_of(set_int_range(0, n))) by {
        assert forall|x: int| s.contains(x) implies set_int_range(0, n).contains(x) by {
            let i = choose|i: int| 0 <= i < src.len() && src[i] == x;
            assert(0 <= src[i] < n);
        }
    }
    lemma_subset_equality(s, set_int_range(0, n));
    assert forall|j: int| 0 <= j < n implies #[trigger] reached(src, n, j) by {
        assert(set_int_range(0, n).contains(j));
        assert(s.contains(j));
        let i = choose|i: int| 0 <= i < src.len() && src[i] == j;
        assert(src[i] == j);
    }
}

/// Timestamp `a` comes strictly before `b` in the requested direction.
pub open spec fn time_before(a: Timestamp, b: Timestamp, newest_first: bool) -> bool {
    if newest_first {
        ts_lt(b, a)
    } else {
        ts_lt(a, b)
    }
}

/// `out` is `items` reordered by `src`, ordered by timestamp in the
/// requested direction, with items of equal timestamp in input order.
pub open spec fn sorted_by_time<T>(items: Seq<(Timestamp, T)>, out: Seq<(Timestamp, T)>, src: Seq<int>, newest_first: bool) -> bool {
    &&& is_perm(src, items.len() as int)
    &&& out.len() == items.len()
    &&& forall|i: int| 0 <= i < out.len() ==> out[i] == items[#[trigger] src[i]]
    &&& forall|i: int, j: int|
        0 <= i < j < out.len() ==> !time_before(#[trigger] out[j].0, #[trigger] out[i].0, newest_first)
    &&& forall|i: int, j: int|
        0 <= i < j < out.len() && out[i].0 == out[j].0 ==> #[trigger] src[i] < #[trigger] src[j]
}

proof fn lemma_insert_sorted<T>(
    all: Seq<(Timestamp, T)>,
    k: int,
    out: Seq<(Timestamp, T)>,
    src: Seq<int>,
    pos: int,
    newest_first: bool,
)
    requires
        0 <= k < all.len(),
        sorted_by_time(all.take(k), out, src, newest_first),
        0 <= pos <= out.len(),
        forall|q: int| 0 <= q < pos ==> !time_before(all[k].0, #[trigger] out[q].0, newest_first),
        pos < out.len() ==> time_before(all[k].0, out[pos].0, newest_first),
    ensures
        sorted_by_time(all.take(k + 1), out.insert(pos, all[k]), src.insert(pos, k), newest_first),
{
    let before = all.take(k);
    let after = all.take(k + 1);
    let o = out.insert(pos, all[k]);
    let s = src.insert(pos, k);
    let e = all[k];
    assert forall|i: int| 0 <= i < k + 1 implies 0 <= #[trigger] s[i] < k + 1 by {
        if i < pos {
            assert(s[i] == src[i]);
        } else if i > pos {
            assert(s[i] == src[i - 1]);
        }
    }
    assert forall|i: int, j: int| 0 <= i < j < k + 1 implies s[i] != s[j] by {
        if i != pos && j != pos {
            let a = if i < pos { i } else { i - 1 };
            let b = if j < pos { j } else { j - 1 };
            assert(s[i] == src[a] && s[j] == src[b]);
        } else if i == pos {
            assert(s[j] == src[j - 1]);
        } else {
            assert(s[i] == src[i]);
        }
    }
    assert forall|i: int| 0 <= i < o.len() implies o[i] == after[#[trigger] s[i]] by {
        if i < pos {
            assert(o[i] == out[i] && s[i] == src[i]);
            assert(after[s[i]] == before[s[i]]);
        } else if i > pos {
            assert(o[i] == out[i - 1] && s[i] == src[i - 1]);
            assert(after[s[i]] == before[s[i]]);
        }
    }
    assert forall|i: int, j: int| 0 <= i < j < o.len() implies !time_before(
        #[trigger] o[j].0,
        #[trigger] o[i].0,
        newest_first,
    ) by {
        if i != pos && j != pos {
            let a = if i < pos { i } else { i - 1 };
            let b = if j < pos { j } else { j - 1 };
            assert(o[i] == out[a] && o[j] == out[b]);
        } else if i == pos {
            assert(o[j] == out[j - 1]);
            assert(!time_before(out[j - 1].0, out[pos].0, newest_first));
        } else {
            assert(o[i] == out[i]);
        }
    }
    assert forall|i: int, j: int|
        0 <= i < j < o.len() && o[i].0 == o[j].0 implies #[trigger] s[i] < #[trigger] s[j] by {
        if i != pos && j != pos {
            let a = if i < pos { i } else { i - 1 };
            let b = if j < pos { j } else { j - 1 };
            assert(o[i] == out[a] && o[j] == out[b]);
            assert(s[i] == src[a] && s[j] == src[b]);
        } else if i == pos {
            assert(o[j] == out[j - 1]);
            assert(!time_before(out[j - 1].0, out[pos].0, newest_first));
        } else {
            assert(s[i] == src[i]);
        }
    }
}

/// Stable sort by timestamp: oldest first, or newest first.
pub fn sort_by_time<T>(items: Vec<(Timestamp, T)>, newest_first: bool) -> (r: Vec<(Timestamp, T)>)
    ensures
        exists|src: Seq<int>| sorted_by_time(items@, r@, src, newest_first),
{
    let ghost all = items@;
    let n = items.len();
    let mut out: Vec<(Timestamp, T)> = Vec::new();
    let ghost mut src: Seq<int> = Seq::empty();
    let mut k: usize = 0;
    for entry in it: items
        invariant
            it.seq() == all,
            k == it.index(),
            k <= all.len(),
            n == all.len(),
            sorted_by_time(all.take(k as int), out@, src, newest_first),
    {
        assert(entry == all[k as int]);
        let ts = entry.0;
        let mut pos: usize = 0;
        loop
            invariant
                pos <= out.len(),
                forall|q: int| 0 <= q < pos ==> !time_before(ts, #[trigger] out@[q].0, newest_first),
            ensures
                pos <= out.len(),
                forall|q: int| 0 <= q < pos ==> !time_before(ts, #[trigger] out@[q].0, newest_first),
                pos < out.len() ==> time_before(ts, out@[pos as int].0, newest_first),
            decreases out.len() - pos,
        {
            if pos == out.len() {
                break ;
            }
            let other = out[pos].0;
            let before = if newest_first {
                other.is_before(&ts)
            } else {
                ts.is_before(&other)
            };
            if before {
                break ;
            }
            pos += 1;
        }
        let ghost old_out = out@;
        out.insert(pos, entry);
        proof {
            lemma_insert_sorted(all, k as int, old_out, src, pos as int, newest_first);
            src = src.insert(pos as int, k as int);
        }
        k += 1;
    }
    proof {
        assert(all.take(k as int) =~= all);
    }
    out
}

} // verus!
