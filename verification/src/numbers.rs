//! Reading decimal integers from text the way `str::parse` does for the
//! integer types: an optional sign, then one or more ASCII digits, and a
//! value in the type's range.

use vstd::prelude::*;
use crate::text::chars_of;

verus! {

/// An ASCII decimal digit.
pub open spec fn is_digit(c: char) -> bool {
    '0' <= c <= '9'
}

/// Every character of `s` is an ASCII decimal digit.
pub open spec fn all_digits_text(s: Seq<char>) -> bool {
    forall|i: int| 0 <= i < s.len() ==> is_digit(#[trigger] s[i])
}

/// The number the decimal digits `s` write.
pub open spec fn digits_value(s: Seq<char>) -> int
    decreases s.len(),
{
    if s.len() == 0 {
        0
    } else {
        digits_value(s.drop_last()) * 10 + (s.last() as int - '0' as int)
    }
}

/// The value of an optional `+` then at least one digit.
pub open spec fn unsigned_value(s: Seq<char>) -> Option<int> {
    let b = if s.len() > 0 && s[0] == '+' {
        s.skip(1)
    } else {
        s
    };
    if b.len() > 0 && all_digits_text(b) {
        Some(digits_value(b))
    } else {
        None
    }
}

/// The value of an optional sign (`+` or `-`) then at least one digit.
pub open spec fn signed_value(s: Seq<char>) -> Option<int> {
    if s.len() > 0 && s[0] == '-' {
        let b = s.skip(1);
        if b.len() > 0 && all_digits_text(b) {
            Some(-digits_value(b))
        } else {
            None
        }
    } else {
        unsigned_value(s)
    }
}

/// `v` when it lies in `lo..=hi`.
pub open spec fn in_range(v: Option<int>, lo: int, hi: int) -> Option<int> {
    match v {
        Some(x) => if lo <= x <= hi {
            Some(x)
        } else {
            None
        },
        None => None,
    }
}

/// What `s.parse::<usize>()` gives, as an integer.
pub open spec fn parsed_usize(s: Seq<char>) -> Option<int> {
    in_range(unsigned_value(s), 0, usize::MAX as int)
}

/// What `s.parse::<u32>()` gives, as an integer.
pub open spec fn parsed_u32(s: Seq<char>) -> Option<int> {
    in_range(unsigned_value(s), 0, u32::MAX as int)
}

/// What `s.parse::<i32>()` gives, as an integer.
pub open spec fn parsed_i32(s: Seq<char>) -> Option<int> {
    in_range(signed_value(s), i32::MIN as int, i32::MAX as int)
}

/// An optional machine integer as an optional integer.
pub open spec fn opt_int_u64(o: Option<u64>) -> Option<int> {
    match o {
        Some(v) => Some(v as int),
        None => None,
    }
}

/// Adding digits never makes a number smaller.
pub proof fn lemma_digits_grow(s: Seq<char>, k: int)
    requires
        all_digits_text(s),
        0 <= k <= s.len(),
    ensures
        digits_value(s.take(k)) <= digits_value(s),
        digits_value(s) >= 0,
    decreases s.len(),
{
    if s.len() > 0 {
        assert(all_digits_text(s.drop_last())) by {
            assert forall|i: int| 0 <= i < s.drop_last().len() implies is_digit(#[trigger] s.drop_last()[i]) by {
                assert(s.drop_last()[i] == s[i]);
            }
        }
        assert(is_digit(s[s.len() - 1]));
        if k < s.len() {
            lemma_digits_grow(s.drop_last(), k);
            assert(s.drop_last().take(k) =~= s.take(k));
        } else {
            lemma_digits_grow(s.drop_last(), 0);
            assert(s.take(k) =~= s);
        }
    }
}

/// The value of the digits `cs[lo..hi]` when it is at most `limit`.
fn digits_up_to(cs: &Vec<char>, lo: usize, hi: usize, limit: u64) -> (r: Option<u64>)
    requires
        lo <= hi <= cs.len(),
        limit >= 9,
    ensures
        ({
            let s = cs@.subrange(lo as int, hi as int);
            opt_int_u64(r) == if s.len() > 0 && all_digits_text(s) && digits_value(s) <= limit {
                Some(digits_value(s))
            } else {
                None::<int>
            }
        }),
{
    let ghost s = cs@.subrange(lo as int, hi as int);
    if lo == hi {
        return None;
    }
    let mut v: u64 = 0;
    let mut i = lo;
    while i < hi
        invariant
            lo <= i <= hi <= cs.len(),
            s == cs@.subrange(lo as int, hi as int),
            all_digits_text(s.take(i - lo)),
            v == digits_value(s.take(i - lo)),
            v <= limit,
            limit >= 9,
        decreases hi - i,
    {
        let c = cs[i];
        assert(s[i - lo] == c);
        if !('0' <= c && c <= '9') {
            return None;
        }
        let d = (c as u32 - '0' as u32) as u64;
        proof {
            assert(s.take(i - lo + 1).drop_last() =~= s.take(i - lo));
            assert(s.take(i - lo + 1).last() == c);
            assert(all_digits_text(s.take(i - lo + 1))) by {
                assert forall|j: int| 0 <= j < s.take(i - lo + 1).len() implies is_digit(
                    #[trigger] s.take(i - lo + 1)[j],
                ) by {
                    if j < i - lo {
                        assert(s.take(i - lo + 1)[j] == s.take(i - lo)[j]);
                    }
                }
            }
        }
        if v > (limit - d) / 10 {
            proof {
                assert(v * 10 + d > limit) by (nonlinear_arith)
                    requires
                        v > (limit - d) / 10,
                        d <= 9,
                        limit >= 9,
                ;
                if all_digits_text(s) {
                    lemma_digits_grow(s, i - lo + 1);
                }
            }
            return None;
        }
        proof {
            assert(v * 10 + d <= limit) by (nonlinear_arith)
                requires
                    v <= (limit - d) / 10,
                    d <= 9,
                    limit >= 9,
            ;
        }
        v = v * 10 + d;
        i += 1;
    }
    assert(s.take(i - lo) =~= s);
    Some(v)
}

/// `s.parse::<usize>()`.
pub fn parse_usize(s: &str) -> (r: Option<usize>)
    ensures
        match r {
            Some(v) => parsed_usize(s@) == Some(v as int),
            None => parsed_usize(s@) is None,
        },
{
    let cs = chars_of(s);
    let lo: usize = if cs.len() > 0 && cs[0] == '+' {
        1
    } else {
        0
    };
    let ghost b = if s@.len() > 0 && s@[0] == '+' {
        s@.skip(1)
    } else {
        s@
    };
    assert(cs@.subrange(lo as int, cs@.len() as int) =~= b);
    match digits_up_to(&cs, lo, cs.len(), usize::MAX as u64) {
        Some(v) => {
            proof {
                lemma_digits_grow(b, 0);
            }
            Some(v as usize)
        },
        None => {
            proof {
                if b.len() > 0 && all_digits_text(b) {
                    lemma_digits_grow(b, 0);
                }
            }
            None
        },
    }
}

/// `s.parse::<u32>()`.
pub fn parse_u32(s: &str) -> (r: Option<u32>)
    ensures
        match r {
            Some(v) => parsed_u32(s@) == Some(v as int),
            None => parsed_u32(s@) is None,
        },
{
    let cs = chars_of(s);
    let lo: usize = if cs.len() > 0 && cs[0] == '+' {
        1
    } else {
        0
    };
    let ghost b = if s@.len() > 0 && s@[0] == '+' {
        s@.skip(1)
    } else {
        s@
    };
    assert(cs@.subrange(lo as int, cs@.len() as int) =~= b);
    match digits_up_to(&cs, lo, cs.len(), u32::MAX as u64) {
        Some(v) => {
            proof {
                lemma_digits_grow(b, 0);
            }
            Some(v as u32)
        },
        None => {
            proof {
                if b.len() > 0 && all_digits_text(b) {
                    lemma_digits_grow(b, 0);
                }
            }
            None
        },
    }
}

/// `s.parse::<i32>()`.
pub fn parse_i32(s: &str) -> (r: Option<i32>)
    ensures
        match r {
            Some(v) => parsed_i32(s@) == Some(v as int),
            None => parsed_i32(s@) is None,
        },
{
    let cs = chars_of(s);
    if cs.len() > 0 && cs[0] == '-' {
        let ghost b = s@.skip(1);
        assert(cs@.subrange(1, cs@.len() as int) =~= b);
        match digits_up_to(&cs, 1, cs.len(), 2147483648u64) {
            Some(v) => {
                proof {
                    lemma_digits_grow(b, 0);
                }
                let r: i64 = -(v as i64);
                Some(r as i32)
            },
            None => {
                proof {
                    if b.len() > 0 && all_digits_text(b) {
                        lemma_digits_grow(b, 0);
                    }
                }
                None
            },
        }
    } else {
        let lo: usize = if cs.len() > 0 && cs[0] == '+' {
            1
        } else {
            0
        };
        let ghost b = if s@.len() > 0 && s@[0] == '+' {
            s@.skip(1)
        } else {
            s@
        };
        assert(cs@.subrange(lo as int, cs@.len() as int) =~= b);
        match digits_up_to(&cs, lo, cs.len(), 2147483647u64) {
            Some(v) => {
                proof {
                    lemma_digits_grow(b, 0);
                }
                Some(v as i32)
            },
            None => {
                proof {
                    if b.len() > 0 && all_digits_text(b) {
                        lemma_digits_grow(b, 0);
                    }
                }
                None
            },
        }
    }
}

} // verus!
