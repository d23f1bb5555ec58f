//! The kernel tests the fixture holds expectations for, and how an expectation's name tells
//! which test reads it.

use vstd::prelude::*;
use vstd::string::StrSliceExecFns;

use crate::keys::{decimal, digit_char, seed_key};
use crate::text::same_str;

verus! {

pub const SLIDING_PROJECT_QKV: &'static str = "sliding_project_qkv";
pub const SLIDING_ATTENTION_OUTPUT: &'static str = "sliding_attention_output";
pub const DECODER_FEEDFORWARD: &'static str = "decoder_feedforward";

/// Whether `name` is one of the kernel tests.
pub open spec fn known_test(name: Seq<char>) -> bool {
    name == SLIDING_PROJECT_QKV@ || name == SLIDING_ATTENTION_OUTPUT@ || name == DECODER_FEEDFORWARD@
}

/// Whether `name` is one of the kernel tests.
pub fn is_known_test(name: &str) -> (r: bool)
    ensures
        r == known_test(name@),
{
    same_str(name, SLIDING_PROJECT_QKV) || same_str(name, SLIDING_ATTENTION_OUTPUT) || same_str(
        name,
        DECODER_FEEDFORWARD,
    )
}

/// The index of the first `.` in `s` at or after `start`, or `s.len()` if there is none.
pub open spec fn first_dot_from(s: Seq<char>, start: int) -> int
    decreases s.len() - start,
{
    if start >= s.len() {
        s.len() as int
    } else if s[start] == '.' {
        start
    } else {
        first_dot_from(s, start + 1)
    }
}

/// The second `.`-separated segment of `key`, or the whole key when it holds no `.`, as
/// `key.split('.').nth(1).unwrap_or(key)` gives it.
pub open spec fn test_segment(key: Seq<char>) -> Seq<char> {
    let first = first_dot_from(key, 0);
    if first >= key.len() {
        key
    } else {
        key.subrange(first + 1, first_dot_from(key, first + 1))
    }
}

fn find_dot(s: &str, start: usize) -> (r: usize)
    requires
        start <= s@.len(),
    ensures
        r == first_dot_from(s@, start as int),
{
    let n = s.unicode_len();
    let mut i = start;
    while i < n && s.get_char(i) != '.'
        invariant
            n == s@.len(),
            start <= i <= n,
            first_dot_from(s@, i as int) == first_dot_from(s@, start as int),
        decreases n - i,
    {
        i += 1;
    }
    i
}

/// The name of the test that reads expectation `key` (`run{N}.{test}.{label}`; the label may
/// itself hold dots, so the test is specifically the second segment).
pub fn test_name_of(key: &str) -> (test: &str)
    ensures
        test@ == test_segment(key@),
{
    let n = key.unicode_len();
    let first = find_dot(key, 0);
    if first >= n {
        key
    } else {
        let second = find_dot(key, first + 1);
        proof {
            lemma_first_dot_bounds(key@, first + 1);
        }
        key.substring_char(first + 1, second)
    }
}

proof fn lemma_first_dot_bounds(s: Seq<char>, start: int)
    requires
        0 <= start <= s.len(),
    ensures
        start <= first_dot_from(s, start) <= s.len(),
    decreases s.len() - start,
{
    if start < s.len() && s[start] != '.' {
        lemma_first_dot_bounds(s, start + 1);
    }
}

/// Whether some test reads expectation `key`.
pub fn is_tested_key(key: &str) -> (r: bool)
    ensures
        r == known_test(test_segment(key@)),
{
    is_known_test(test_name_of(key))
}

proof fn lemma_first_dot_at(s: Seq<char>, start: int, at: int)
    requires
        0 <= start <= at <= s.len(),
        forall|k: int| start <= k < at ==> s[k] != '.',
        at == s.len() || s[at] == '.',
    ensures
        first_dot_from(s, start) == at,
    decreases at - start,
{
    if start < at {
        lemma_first_dot_at(s, start + 1, at);
    }
}

proof fn lemma_decimal_has_no_dot(n: nat)
    ensures
        forall|k: int| 0 <= k < decimal(n).len() ==> decimal(n)[k] != '.',
    decreases n,
{
    if n >= 10 {
        lemma_decimal_has_no_dot(n / 10);
        let a = decimal(n / 10);
        let d = digit_char((n % 10) as nat);
        assert(d != '.');
        assert(decimal(n) == a + seq![d]);
        assert forall|k: int| 0 <= k < decimal(n).len() implies decimal(n)[k] != '.' by {
            if k < a.len() {
                assert(decimal(n)[k] == a[k]);
            } else {
                assert(decimal(n)[k] == d);
            }
        }
    } else {
        assert(digit_char(n) != '.');
    }
}

/// The test named in `run{run}.{test}.{label}` is `test`, whatever dots the label holds, as
/// long as the test name holds none.
pub proof fn lemma_test_segment_of_seed_key(run: nat, test: Seq<char>, label: Seq<char>)
    requires
        forall|k: int| 0 <= k < test.len() ==> test[k] != '.',
    ensures
        test_segment(seed_key(run, test, label)) == test,
{
    reveal_strlit("run");
    reveal_strlit(".");
    lemma_decimal_has_no_dot(run);
    let key = seed_key(run, test, label);
    let head = "run"@ + decimal(run);
    let first = head.len() as int;
    assert(key =~= head + "."@ + test + "."@ + label);
    assert(key[first] == '.');
    assert forall|k: int| 0 <= k < first implies key[k] != '.' by {
        if k >= 3 {
            assert(key[k] == decimal(run)[k - 3]);
        }
    }
    lemma_first_dot_at(key, 0, first);
    let second = first + 1 + test.len();
    assert(key[second] == '.');
    assert forall|k: int| first + 1 <= k < second implies key[k] != '.' by {
        assert(key[k] == test[k - first - 1]);
    }
    lemma_first_dot_at(key, first + 1, second);
    assert(key.subrange(first + 1, second) =~= test);
}

proof fn lemma_decimal_len(n: nat)
    ensures
        decimal(n).len() >= 1,
        n >= 10 ==> decimal(n).len() >= 2,
    decreases n,
{
    if n >= 10 {
        lemma_decimal_len(n / 10);
    }
}

proof fn lemma_decimal_injective(a: nat, b: nat)
    requires
        decimal(a) == decimal(b),
    ensures
        a == b,
    decreases a,
{
    lemma_decimal_len(a);
    lemma_decimal_len(b);
    if a >= 10 && b >= 10 {
        let da = decimal(a);
        let db = decimal(b);
        assert(da.last() == digit_char((a % 10) as nat));
        assert(db.last() == digit_char((b % 10) as nat));
        assert(da.drop_last() =~= decimal(a / 10));
        assert(db.drop_last() =~= decimal(b / 10));
        lemma_decimal_injective(a / 10, b / 10);
    } else if a < 10 && b < 10 {
        assert(decimal(a)[0] == digit_char(a));
        assert(decimal(b)[0] == digit_char(b));
    }
}

/// Different runs never share a seed name: `run{r1}.…` and `run{r2}.…` differ whenever
/// `r1 != r2`, whatever the test and input names, so every run draws its own inputs.
pub proof fn lemma_runs_have_distinct_seed_names(
    r1: nat,
    r2: nat,
    test1: Seq<char>,
    name1: Seq<char>,
    test2: Seq<char>,
    name2: Seq<char>,
)
    requires
        r1 != r2,
    ensures
        seed_key(r1, test1, name1) != seed_key(r2, test2, name2),
{
    reveal_strlit("run");
    reveal_strlit(".");
    lemma_decimal_has_no_dot(r1);
    lemma_decimal_has_no_dot(r2);
    let k1 = seed_key(r1, test1, name1);
    let k2 = seed_key(r2, test2, name2);
    let h1 = "run"@ + decimal(r1);
    let h2 = "run"@ + decimal(r2);
    assert(k1 =~= h1 + ("."@ + test1 + "."@ + name1));
    assert(k2 =~= h2 + ("."@ + test2 + "."@ + name2));
    assert forall|k: int| 0 <= k < h1.len() implies k1[k] != '.' by {
        if k >= 3 {
            assert(k1[k] == decimal(r1)[k - 3]);
        }
    }
    assert forall|k: int| 0 <= k < h2.len() implies k2[k] != '.' by {
        if k >= 3 {
            assert(k2[k] == decimal(r2)[k - 3]);
        }
    }
    assert(k1[h1.len() as int] == '.');
    assert(k2[h2.len() as int] == '.');
    lemma_first_dot_at(k1, 0, h1.len() as int);
    lemma_first_dot_at(k2, 0, h2.len() as int);
    if k1 == k2 {
        assert(h1.len() == h2.len());
        assert(decimal(r1) =~= k1.subrange(3, h1.len() as int));
        assert(decimal(r2) =~= k2.subrange(3, h2.len() as int));
        lemma_decimal_injective(r1, r2);
    }
}

} // verus!
