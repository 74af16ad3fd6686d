//! Short codes: bijective base-62 numerals over the alphabet `a-z`, `A-Z`,
//! `0-9`, numbered from 1 (`a`). Each run of a command gets the smallest code
//! that no other run of that command holds.

use vstd::prelude::*;
use vstd::seq_lib::seq_to_set_is_finite;
use vstd::set_lib::lemma_len_subset;
use crate::text::{same_text, string_of};

verus! {

/// The numeral character for a digit value `1..=62`.
pub open spec fn digit_char(d: int) -> char {
    if d <= 26 {
        ((('a' as int) + d - 1) as u8) as char
    } else if d <= 52 {
        ((('A' as int) + d - 27) as u8) as char
    } else {
        ((('0' as int) + d - 53) as u8) as char
    }
}

/// The digit value of a numeral character (0 for a character outside the
/// alphabet).
pub open spec fn digit_value(c: char) -> int {
    let u = c as int;
    if 97 <= u <= 122 {
        u - 96
    } else if 65 <= u <= 90 {
        u - 64 + 26
    } else if 48 <= u <= 57 {
        u - 47 + 52
    } else {
        0
    }
}

/// Bijective base-62 numeral of `n` (empty for 0).
pub open spec fn base62(n: nat) -> Seq<char>
    decreases n,
{
    if n == 0 {
        seq![]
    } else if n % 62 == 0 {
        base62((n / 62 - 1) as nat) + seq![digit_char(62)]
    } else {
        base62(n / 62) + seq![digit_char((n % 62) as int)]
    }
}

/// The number a bijective base-62 numeral denotes.
pub open spec fn base62_value(s: Seq<char>) -> int
    decreases s.len(),
{
    if s.len() == 0 {
        0
    } else {
        base62_value(s.drop_last()) * 62 + digit_value(s.last())
    }
}

proof fn lemma_digit_roundtrip(d: int)
    requires
        1 <= d <= 62,
    ensures
        digit_value(digit_char(d)) == d,
{
}

/// Reading back the numeral of `n` gives `n`.
pub proof fn lemma_base62_roundtrip(n: nat)
    ensures
        base62_value(base62(n)) == n,
    decreases n,
{
    if n > 0 {
        if n % 62 == 0 {
            lemma_base62_roundtrip((n / 62 - 1) as nat);
            lemma_digit_roundtrip(62);
            let s = base62((n / 62 - 1) as nat) + seq![digit_char(62)];
            assert(s.drop_last() =~= base62((n / 62 - 1) as nat));
        } else {
            lemma_base62_roundtrip(n / 62);
            lemma_digit_roundtrip((n % 62) as int);
            let s = base62(n / 62) + seq![digit_char((n % 62) as int)];
            assert(s.drop_last() =~= base62(n / 62));
        }
    }
}

/// Different numbers have different short codes.
pub proof fn lemma_base62_injective(m: nat, n: nat)
    requires
        base62(m) == base62(n),
    ensures
        m == n,
{
    lemma_base62_roundtrip(m);
    lemma_base62_roundtrip(n);
}

/// Encodes `n` as a bijective base-62 numeral: 1 => `a`, 26 => `z`,
/// 27 => `A`, 62 => `9`, 63 => `aa`.
pub fn encode_bijective_base62(n0: u64) -> (r: String)
    ensures
        r@ == base62(n0 as nat),
{
    let mut n = n0;
    let mut buf: Vec<char> = Vec::new();
    while n > 0
        invariant
            base62(n as nat) + buf@ == base62(n0 as nat),
        decreases n,
    {
        let mut rem = n % 62;
        let ghost before = n;
        let ghost old_buf = buf@;
        if rem == 0 {
            rem = 62;
            n = n / 62 - 1;
        } else {
            n = n / 62;
        }
        let c = if rem <= 26 {
            (97u8 + (rem - 1) as u8) as char
        } else if rem <= 52 {
            (65u8 + (rem - 27) as u8) as char
        } else {
            (48u8 + (rem - 53) as u8) as char
        };
        assert(c == digit_char(rem as int));
        buf.insert(0, c);
        assert(base62(before as nat) == base62(n as nat) + seq![c]);
        assert(base62(n as nat) + buf@ =~= base62(before as nat) + old_buf);
    }
    assert(base62(0) + buf@ =~= buf@);
    string_of(&buf, 0, buf.len())
}


/// One of `used` holds the code `c`.
pub open spec fn holds_code(used: Seq<String>, c: Seq<char>) -> bool {
    exists|i: int| 0 <= i < used.len() && #[trigger] used[i]@ == c
}

/// `code` is the smallest short code that `used` does not hold.
pub open spec fn is_first_unused(used: Seq<String>, code: Seq<char>) -> bool {
    exists|n: nat|
        n >= 1 && code == base62(n) && !holds_code(used, base62(n)) && forall|m: nat|
            1 <= m < n ==> holds_code(used, #[trigger] base62(m))
}

/// If the codes of `1..=n` are all held, there are at least `n` holders.
proof fn lemma_codes_bound(used: Seq<String>, n: nat)
    requires
        forall|m: nat| 1 <= m <= n ==> holds_code(used, #[trigger] base62(m)),
    ensures
        n <= used.len(),
{
    let views = used.map_values(|s: String| s@);
    let a = Seq::new(n, |i: int| base62((i + 1) as nat));
    assert(a.no_duplicates()) by {
        assert forall|i: int, j: int| 0 <= i < a.len() && 0 <= j < a.len() && i != j implies a[i]
            != a[j] by {
            if a[i] == a[j] {
                lemma_base62_injective((i + 1) as nat, (j + 1) as nat);
            }
        }
    }
    a.unique_seq_to_set();
    views.lemma_cardinality_of_set();
    seq_to_set_is_finite(views);
    assert(a.to_set().subset_of(views.to_set())) by {
        assert forall|c: Seq<char>| a.to_set().contains(c) implies views.to_set().contains(c) by {
            let i = choose|i: int| 0 <= i < a.len() && a[i] == c;
            assert(holds_code(used, base62((i + 1) as nat)));
            let k = choose|k: int| 0 <= k < used.len() && #[trigger] used[k]@ == base62(
                (i + 1) as nat,
            );
            assert(views[k] == c);
        }
    }
    lemma_len_subset(a.to_set(), views.to_set());
}

/// Whether one of `used` holds `code`.
pub fn holds(used: &Vec<String>, code: &String) -> (r: bool)
    ensures
        r == holds_code(used@, code@),
{
    let mut i: usize = 0;
    while i < used.len()
        invariant
            i <= used@.len(),
            forall|j: int| 0 <= j < i ==> used@[j]@ != code@,
        decreases used@.len() - i,
    {
        if same_text(used[i].as_str(), code.as_str()) {
            return true;
        }
        i += 1;
    }
    false
}

/// The smallest short code (`a`, `b`, ...) that none of `used` holds.
pub fn first_unused_code(used: &Vec<String>) -> (r: String)
    requires
        used@.len() < u64::MAX,
    ensures
        is_first_unused(used@, r@),
{
    let mut n: u64 = 1;
    loop
        invariant
            1 <= n <= used@.len() + 1,
            used@.len() < u64::MAX,
            forall|m: nat| 1 <= m < n ==> holds_code(used@, #[trigger] base62(m)),
        decreases used@.len() + 1 - n,
    {
        let code = encode_bijective_base62(n);
        if !holds(used, &code) {
            assert(is_first_unused(used@, code@)) by {
                assert(code@ == base62(n as nat));
            }
            return code;
        }
        proof {
            lemma_codes_bound(used@, n as nat);
        }
        n += 1;
    }
}

} // verus!
