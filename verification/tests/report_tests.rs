use gemma4_fixture::report::{all_passed, exit_status, output_label, trim_prefixes_of};

#[test]
fn single_outputs_are_named_by_their_test() {
    assert_eq!(output_label("decoder_feedforward", "expected", true), "decoder_feedforward");
}

#[test]
fn several_outputs_are_named_by_test_and_label() {
    assert_eq!(output_label("sliding_project_qkv", "expected.q", false), "sliding_project_qkv q");
    assert_eq!(output_label("sliding_project_qkv", "expected.expected.k", false), "sliding_project_qkv k");
    assert_eq!(output_label("t", "check.x", false), "t check.x");
}

#[test]
fn trimming_removes_every_leading_copy() {
    assert_eq!(trim_prefixes_of("ababc", "ab"), "c");
    assert_eq!(trim_prefixes_of("abab", "ab"), "");
    assert_eq!(trim_prefixes_of("cab", "ab"), "cab");
    assert_eq!(trim_prefixes_of("abc", ""), "abc");
    assert_eq!(trim_prefixes_of("a", "ab"), "a");
}

#[test]
fn a_test_passes_when_every_check_passes() {
    assert!(all_passed(&[]));
    assert!(all_passed(&[true, true]));
    assert!(!all_passed(&[true, false, true]));
}

#[test]
fn failures_set_the_exit_status() {
    assert_eq!(exit_status(0), 0);
    assert_eq!(exit_status(3), 1);
}
