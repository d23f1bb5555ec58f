use gemma4_fixture::keys::{check_name, decimal_string, global_scale_name, seed_name};

#[test]
fn decimal_string_writes_like_format() {
    for n in [0usize, 7, 10, 99, 100, 2047, 123456789] {
        assert_eq!(decimal_string(n), format!("{n}"));
    }
}

#[test]
fn seed_name_is_run_test_name() {
    assert_eq!(seed_name(2, "sliding_project_qkv", "x_generic"), "run2.sliding_project_qkv.x_generic");
    assert_eq!(seed_name(0, "global", "pos"), "run0.global.pos");
}

#[test]
fn check_name_inserts_check() {
    assert_eq!(check_name(1, "decoder_feedforward", "residual"), "run1.decoder_feedforward.check.residual");
}

#[test]
fn global_scale_name_appends_suffix() {
    assert_eq!(global_scale_name(2, "down"), "run2.global.down_global_scale");
}

#[test]
fn different_runs_never_share_names() {
    assert_ne!(seed_name(1, "a", "2.b"), seed_name(12, "a", "b"));
    assert_ne!(seed_name(1, "", ""), seed_name(10, "", ""));
    for r1 in 0..30 {
        for r2 in 0..30 {
            if r1 != r2 {
                assert_ne!(seed_name(r1, "t", "x"), seed_name(r2, "t", "x"));
            }
        }
    }
}
