use gemma4_fixture::suite::{
    is_known_test, is_tested_key, test_name_of, DECODER_FEEDFORWARD, SLIDING_ATTENTION_OUTPUT,
    SLIDING_PROJECT_QKV,
};

#[test]
fn known_tests() {
    assert!(is_known_test(SLIDING_PROJECT_QKV));
    assert!(is_known_test(SLIDING_ATTENTION_OUTPUT));
    assert!(is_known_test(DECODER_FEEDFORWARD));
    assert!(!is_known_test("sliding_project"));
}

#[test]
fn test_name_is_second_segment() {
    assert_eq!(test_name_of("run0.sliding_project_qkv.expected.q"), "sliding_project_qkv");
    assert_eq!(test_name_of("run2.decoder_feedforward.expected"), "decoder_feedforward");
    assert_eq!(test_name_of("a."), "");
    assert_eq!(test_name_of(".b"), "b");
}

#[test]
fn test_name_of_dotless_key_is_the_key() {
    assert_eq!(test_name_of("nodots"), "nodots");
}

#[test]
fn tested_keys() {
    assert!(is_tested_key("run1.sliding_attention_output.expected"));
    assert!(!is_tested_key("run1.full_attention.expected"));
    // A key without dots is its own test name.
    assert!(is_tested_key("sliding_project_qkv"));
    assert!(!is_tested_key("orphan"));
}
