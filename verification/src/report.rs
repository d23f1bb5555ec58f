//! The verdicts of a kernel-test session: how each compared output is labelled in the
//! report, whether a test passed, and the status the session exits with.

use vstd::prelude::*;
use vstd::string::{StrSliceExecFns, StringExecFns};

verus! {

/// `s` with every leading copy of `prefix` removed, as `str::trim_start_matches` removes
/// them (an empty `prefix` removes nothing).
pub open spec fn trim_prefixes(s: Seq<char>, prefix: Seq<char>) -> Seq<char>
    decreases s.len(),
{
    if 0 < prefix.len() <= s.len() && s.subrange(0, prefix.len() as int) == prefix {
        trim_prefixes(s.subrange(prefix.len() as int, s.len() as int), prefix)
    } else {
        s
    }
}

/// Whether `prefix` occurs in `s` at character `start`.
fn occurs_at(s: &str, prefix: &str, start: usize, s_len: usize, prefix_len: usize) -> (r: bool)
    requires
        s_len == s@.len(),
        prefix_len == prefix@.len(),
        start + prefix_len <= s_len,
    ensures
        r == (s@.subrange(start as int, start + prefix_len) == prefix@),
{
    let mut j: usize = 0;
    while j < prefix_len
        invariant
            j <= prefix_len,
            start + prefix_len <= s_len,
            s_len == s@.len(),
            prefix_len == prefix@.len(),
            forall|k: int| 0 <= k < j ==> s@[start + k] == prefix@[k],
        decreases prefix_len - j,
    {
        if s.get_char(start + j) != prefix.get_char(j) {
            assert(s@.subrange(start as int, start + prefix_len)[j as int] != prefix@[j as int]);
            return false;
        }
        j += 1;
    }
    assert(s@.subrange(start as int, start + prefix_len) =~= prefix@);
    true
}

/// `s` with every leading copy of `prefix` removed.
pub fn trim_prefixes_of<'a>(s: &'a str, prefix: &str) -> (r: &'a str)
    ensures
        r@ == trim_prefixes(s@, prefix@),
{
    let n = s.unicode_len();
    let m = prefix.unicode_len();
    if m == 0 {
        return s;
    }
    let mut start: usize = 0;
    assert(s@.subrange(0, n as int) =~= s@);
    while m <= n - start && occurs_at(s, prefix, start, n, m)
        invariant
            start <= n,
            n == s@.len(),
            m == prefix@.len(),
            m > 0,
            trim_prefixes(s@, prefix@) == trim_prefixes(s@.subrange(start as int, n as int), prefix@),
        decreases n - start,
    {
        let ghost rest = s@.subrange(start as int, n as int);
        assert(rest.subrange(0, m as int) =~= s@.subrange(start as int, start + m));
        assert(rest.subrange(m as int, rest.len() as int) =~= s@.subrange(start + m, n as int));
        start += m;
    }
    proof {
        let rest = s@.subrange(start as int, n as int);
        if m <= n - start {
            assert(rest.subrange(0, m as int) =~= s@.subrange(start as int, start + m));
        }
    }
    s.substring_char(start, n)
}

/// How an output of test `test` is named in the report: the test alone when the test has a
/// single output, else the test and the output's label without its leading `expected.`
/// prefixes.
pub fn output_label(test: &str, label: &str, single_output: bool) -> (r: String)
    ensures
        r@ == if single_output {
            test@
        } else {
            test@ + " "@ + trim_prefixes(label@, "expected."@)
        },
{
    let mut r = String::from_str(test);
    if !single_output {
        r.append(" ");
        r.append(trim_prefixes_of(label, "expected."));
    }
    r
}

/// Whether every check passed: a run passes when each of its outputs matches, and a test
/// when each of its runs passes.
pub fn all_passed(results: &[bool]) -> (r: bool)
    ensures
        r == forall|i: int| 0 <= i < results@.len() ==> results@[i],
{
    let mut i: usize = 0;
    while i < results.len()
        invariant
            i <= results@.len(),
            forall|k: int| 0 <= k < i ==> results@[k],
        decreases results@.len() - i,
    {
        if !results[i] {
            return false;
        }
        i += 1;
    }
    true
}

/// The status a session exits with: 0 when no test failed, 1 otherwise.
pub fn exit_status(failed_tests: usize) -> (code: i32)
    ensures
        code == if failed_tests == 0 { 0i32 } else { 1i32 },
{
    if failed_tests == 0 {
        0
    } else {
        1
    }
}

} // verus!
