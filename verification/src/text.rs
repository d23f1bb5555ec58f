//! Small string facts the harness decides on: equality, ASCII case folding and the decimal
//! `u64` syntax that `str::parse` accepts.

use vstd::prelude::*;
use vstd::string::{StrSliceExecFns, StringExecFns};

verus! {

/// Whether two strings hold the same characters.
pub fn same_str(a: &str, b: &str) -> (r: bool)
    ensures
        r == (a@ == b@),
{
    let x = String::from_str(a);
    let y = String::from_str(b);
    x == y
}

/// The code of `c` with `A`..`Z` mapped to `a`..`z`, as `to_ascii_lowercase` maps it.
pub open spec fn ascii_lower_code(c: char) -> u32 {
    if 'A' <= c && c <= 'Z' {
        (c as u32 + 32) as u32
    } else {
        c as u32
    }
}

/// Whether `s`, ASCII-lower-cased, is exactly `target`.
pub open spec fn lowercase_matches(s: Seq<char>, target: Seq<char>) -> bool {
    &&& s.len() == target.len()
    &&& forall|j: int| 0 <= j < s.len() ==> ascii_lower_code(#[trigger] s[j]) == target[j] as u32
}

/// Whether `s`, ASCII-lower-cased, equals `target`.
pub fn lowercase_equals(s: &str, target: &str) -> (r: bool)
    ensures
        r == lowercase_matches(s@, target@),
{
    let n = s.unicode_len();
    let m = target.unicode_len();
    if n != m {
        return false;
    }
    let mut i: usize = 0;
    while i < n
        invariant
            n == s@.len(),
            m == target@.len(),
            n == m,
            i <= n,
            forall|j: int| 0 <= j < i ==> ascii_lower_code(#[trigger] s@[j]) == target@[j] as u32,
        decreases n - i,
    {
        let c = s.get_char(i);
        let code: u32 = if 'A' <= c && c <= 'Z' {
            c as u32 + 32
        } else {
            c as u32
        };
        if code != target.get_char(i) as u32 {
            return false;
        }
        i += 1;
    }
    true
}

pub open spec fn is_digit(c: char) -> bool {
    '0' <= c && c <= '9'
}

/// The number that the decimal digits `d` spell.
pub open spec fn digits_value(d: Seq<char>) -> nat
    decreases d.len(),
{
    if d.len() == 0 {
        0
    } else {
        digits_value(d.drop_last()) * 10 + (d.last() as nat - '0' as nat) as nat
    }
}

/// The digits of `s` after an optional leading `+`.
pub open spec fn unsigned_digits(s: Seq<char>) -> Seq<char> {
    if s.len() > 0 && s[0] == '+' {
        s.skip(1)
    } else {
        s
    }
}

/// What `s.parse::<u64>()` yields: an optional `+`, then one or more decimal digits whose
/// value fits in 64 bits; anything else is rejected.
pub open spec fn parse_u64_spec(s: Seq<char>) -> Option<u64> {
    let d = unsigned_digits(s);
    if d.len() > 0 && (forall|j: int| 0 <= j < d.len() ==> is_digit(#[trigger] d[j]))
        && digits_value(d) <= u64::MAX {
        Some(digits_value(d) as u64)
    } else {
        None
    }
}

/// `s` parsed as a decimal `u64`, the way `str::parse::<u64>` parses it.
pub fn parse_u64(s: &str) -> (r: Option<u64>)
    ensures
        r == parse_u64_spec(s@),
{
    let n = s.unicode_len();
    let start: usize = if n > 0 && s.get_char(0) == '+' {
        1
    } else {
        0
    };
    let ghost d = unsigned_digits(s@);
    assert(d =~= s@.skip(start as int));
    if start == n {
        return None;
    }
    let mut value: u64 = 0;
    let mut i: usize = start;
    let mut overflow = false;
    while i < n
        invariant
            n == s@.len(),
            start <= i <= n,
            d == s@.skip(start as int),
            d == unsigned_digits(s@),
            forall|j: int| start <= j < i ==> is_digit(#[trigger] s@[j]),
            !overflow ==> value == digits_value(d.take(i - start)),
            overflow ==> digits_value(d.take(i - start)) > u64::MAX,
        decreases n - i,
    {
        let c = s.get_char(i);
        if !('0' <= c && c <= '9') {
            proof {
                let k = i - start;
                assert(d[k] == s@[i as int]);
                assert(!is_digit(d[k]));
            }
            return None;
        }
        let digit = (c as u32 - '0' as u32) as u64;
        assert(d.take(i - start + 1).drop_last() =~= d.take(i - start));
        assert(d.take(i - start + 1).last() == c);
        if !overflow {
            match value.checked_mul(10) {
                Some(v) => match v.checked_add(digit) {
                    Some(w) => {
                        value = w;
                    },
                    None => {
                        overflow = true;
                    },
                },
                None => {
                    overflow = true;
                },
            }
        } else {
            assert(digits_value(d.take(i - start + 1)) >= digits_value(d.take(i - start)) * 10);
        }
        i += 1;
    }
    assert(d.take(n - start) =~= d);
    if overflow {
        None
    } else {
        Some(value)
    }
}

} // verus!
