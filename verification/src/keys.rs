//! The fixture's naming scheme. Every synthesized tensor, every expected output and every
//! stored checksum is named `run{N}.{test}.{label}`; the same names seed the generator, so
//! they must match the reference generator character for character.

use vstd::prelude::*;
use vstd::string::StringExecFns;

verus! {

/// The decimal digit character of `d` (for `d < 10`).
pub open spec fn digit_char(d: nat) -> char {
    if d == 0 {
        '0'
    } else if d == 1 {
        '1'
    } else if d == 2 {
        '2'
    } else if d == 3 {
        '3'
    } else if d == 4 {
        '4'
    } else if d == 5 {
        '5'
    } else if d == 6 {
        '6'
    } else if d == 7 {
        '7'
    } else if d == 8 {
        '8'
    } else {
        '9'
    }
}

/// The decimal representation of `n`, most significant digit first, without leading zeros.
pub open spec fn decimal(n: nat) -> Seq<char>
    decreases n,
{
    if n < 10 {
        seq![digit_char(n)]
    } else {
        decimal(n / 10) + seq![digit_char(n % 10)]
    }
}

/// `run{run}.{test}.{name}`.
pub open spec fn seed_key(run: nat, test: Seq<char>, name: Seq<char>) -> Seq<char> {
    "run"@ + decimal(run) + "."@ + test + "."@ + name
}

fn digit_str(d: usize) -> (s: &'static str)
    requires
        d < 10,
    ensures
        s@ == seq![digit_char(d as nat)],
{
    proof {
        reveal_strlit("0");
        reveal_strlit("1");
        reveal_strlit("2");
        reveal_strlit("3");
        reveal_strlit("4");
        reveal_strlit("5");
        reveal_strlit("6");
        reveal_strlit("7");
        reveal_strlit("8");
        reveal_strlit("9");
    }
    let s = if d == 0 {
        "0"
    } else if d == 1 {
        "1"
    } else if d == 2 {
        "2"
    } else if d == 3 {
        "3"
    } else if d == 4 {
        "4"
    } else if d == 5 {
        "5"
    } else if d == 6 {
        "6"
    } else if d == 7 {
        "7"
    } else if d == 8 {
        "8"
    } else {
        "9"
    };
    assert(s@ =~= seq![digit_char(d as nat)]);
    s
}

/// The decimal representation of `n`, as `format!("{n}")` writes it.
pub fn decimal_string(n: usize) -> (s: String)
    ensures
        s@ == decimal(n as nat),
    decreases n,
{
    if n < 10 {
        String::from_str(digit_str(n))
    } else {
        let mut s = decimal_string(n / 10);
        s.append(digit_str(n % 10));
        s
    }
}

/// The name `run{run}.{test}.{name}` that seeds input `name` of test `test` in run `run`.
pub fn seed_name(run: usize, test: &str, name: &str) -> (s: String)
    ensures
        s@ == seed_key(run as nat, test@, name@),
{
    let mut s = String::from_str("run");
    let digits = decimal_string(run);
    s.append(digits.as_str());
    s.append(".");
    s.append(test);
    s.append(".");
    s.append(name);
    s
}

/// The fixture's name for the checksum of input `input`: `run{run}.{test}.check.{input}`.
pub fn check_name(run: usize, test: &str, input: &str) -> (s: String)
    ensures
        s@ == seed_key(run as nat, test@, "check."@ + input@),
{
    let mut label = String::from_str("check.");
    label.append(input);
    seed_name(run, test, label.as_str())
}

/// The seed of run `run`'s global scale `name`: `run{run}.global.{name}_global_scale`.
pub fn global_scale_name(run: usize, name: &str) -> (s: String)
    ensures
        s@ == seed_key(run as nat, "global"@, name@ + "_global_scale"@),
{
    let mut label = String::from_str(name);
    label.append("_global_scale");
    seed_name(run, "global", label.as_str())
}

} // verus!
