use gemma4_fixture::profile::{
    is_npu_target, profiling_level_enabled, settle_millis, window_cycles, FieldExtractor, Span,
};

fn span(cluster: u64, begin: u64, end: u64) -> Span {
    Span { cluster, begin, end }
}

#[test]
fn no_spans_no_cycles() {
    assert_eq!(window_cycles(&[]), None);
}

#[test]
fn one_cluster_takes_the_union() {
    let spans = [span(0, 100, 150), span(0, 120, 400), span(0, 90, 95)];
    assert_eq!(window_cycles(&spans), Some(310));
}

#[test]
fn clusters_are_not_mixed() {
    // Cluster 1's counter runs far ahead of cluster 0's: a raw min/max across them would give
    // 10_050 cycles, but each cluster's own window is at most 100.
    let spans = [span(0, 0, 50), span(1, 10_000, 10_100), span(0, 40, 60)];
    assert_eq!(window_cycles(&spans), Some(100));
}

#[test]
fn backwards_span_counts_zero() {
    assert_eq!(window_cycles(&[span(3, 500, 100)]), Some(0));
}

#[test]
fn extractor_keeps_the_three_fields() {
    let mut e = FieldExtractor::new();
    assert!(e.span().is_none());
    e.record_u64("begin_cycle", 5);
    e.record_u64("other", 99);
    e.record_u64("tid", 1);
    assert!(e.span().is_none());
    e.record_u64("end_cycle", 9);
    assert_eq!(e.span(), Some(span(1, 5, 9)));
    e.record_u64("end_cycle", 12);
    assert_eq!(e.span(), Some(span(1, 5, 12)));
}

#[test]
fn default_extractor_is_empty() {
    let e = FieldExtractor::default();
    assert!(e.begin.is_none() && e.end.is_none() && e.cluster.is_none());
}

#[test]
fn npu_target() {
    assert!(is_npu_target("span::npu"));
    assert!(!is_npu_target("span::npu2"));
    assert!(!is_npu_target("tokio::runtime"));
}

#[test]
fn profiling_levels() {
    assert!(profiling_level_enabled("info"));
    assert!(profiling_level_enabled("DEBUG"));
    assert!(profiling_level_enabled("Trace"));
    assert!(!profiling_level_enabled("warn"));
    assert!(!profiling_level_enabled(""));
    assert!(!profiling_level_enabled("infos"));
}

#[test]
fn settle_defaults_to_500() {
    assert_eq!(settle_millis(None), 500);
    assert_eq!(settle_millis(Some("abc")), 500);
    assert_eq!(settle_millis(Some("")), 500);
    assert_eq!(settle_millis(Some("-5")), 500);
    assert_eq!(settle_millis(Some("18446744073709551616")), 500);
}

#[test]
fn settle_parses_like_str_parse() {
    for text in ["250", "+7", "0", "18446744073709551615", "007", " 5", "+", "1_000"] {
        assert_eq!(settle_millis(Some(text)), text.parse::<u64>().unwrap_or(500), "{text}");
    }
}
