//! The cycle-count report. Each NPU cluster counts its own cycles, so spans are only
//! comparable within one cluster: a run's cycle count is the union of the spans within each
//! cluster, then the longest cluster's window.

use std::collections::HashMap;

use vstd::prelude::*;

use crate::text::{lowercase_equals, lowercase_matches, parse_u64, parse_u64_spec, same_str};

verus! {

/// The tracing target NPU spans are recorded under.
pub const TRACING_TARGET_NPU: &'static str = "span::npu";

/// The milliseconds to wait for deferred span read-back when nothing else is configured.
pub const DEFAULT_SETTLE_MS: u64 = 500;

/// One NPU span: the cluster that counted it and its begin and end cycle on that cluster's
/// counter.
#[derive(Clone, Copy, Debug, PartialEq, Eq, Structural)]
pub struct Span {
    pub cluster: u64,
    pub begin: u64,
    pub end: u64,
}

/// The earliest begin among the spans of cluster `c` (`u64::MAX` if there is none).
pub open spec fn min_begin(spans: Seq<Span>, c: u64) -> u64
    decreases spans.len(),
{
    if spans.len() == 0 {
        u64::MAX
    } else {
        let rest = min_begin(spans.drop_last(), c);
        if spans.last().cluster == c && spans.last().begin < rest {
            spans.last().begin
        } else {
            rest
        }
    }
}

/// The latest end among the spans of cluster `c` (0 if there is none).
pub open spec fn max_end(spans: Seq<Span>, c: u64) -> u64
    decreases spans.len(),
{
    if spans.len() == 0 {
        0
    } else {
        let rest = max_end(spans.drop_last(), c);
        if spans.last().cluster == c && spans.last().end > rest {
            spans.last().end
        } else {
            rest
        }
    }
}

/// `end - begin`, or 0 when `end < begin`.
pub open spec fn saturating_diff(end: u64, begin: u64) -> u64 {
    if end >= begin {
        (end - begin) as u64
    } else {
        0
    }
}

/// The cycles of cluster `c`'s window: from its earliest begin to its latest end.
pub open spec fn cluster_window(spans: Seq<Span>, c: u64) -> u64 {
    saturating_diff(max_end(spans, c), min_begin(spans, c))
}

proof fn lemma_window_covers_span(spans: Seq<Span>, i: int)
    requires
        0 <= i < spans.len(),
    ensures
        min_begin(spans, spans[i].cluster) <= spans[i].begin,
        max_end(spans, spans[i].cluster) >= spans[i].end,
    decreases spans.len(),
{
    if i < spans.len() - 1 {
        lemma_window_covers_span(spans.drop_last(), i);
    }
}

/// The cycles that ran: per cluster the union of its spans, then the longest of those
/// windows; `None` when no span was recorded.
pub fn window_cycles(spans: &[Span]) -> (cycles: Option<u64>)
    ensures
        cycles is None <==> spans@.len() == 0,
        cycles matches Some(v) ==> (exists|i: int|
            0 <= i < spans@.len() && v == cluster_window(spans@, #[trigger] spans@[i].cluster)),
        cycles matches Some(v) ==> forall|i: int|
            0 <= i < spans@.len() ==> v >= cluster_window(spans@, #[trigger] spans@[i].cluster),
        cycles matches Some(v) ==> forall|i: int|
            0 <= i < spans@.len() ==> v >= saturating_diff(#[trigger] spans@[i].end, spans@[i].begin),
{
    broadcast use vstd::std_specs::hash::group_hash_axioms;

    let per_cluster = cluster_windows(spans);
    let mut best: Option<u64> = None;
    let mut i: usize = 0;
    while i < spans.len()
        invariant
            i <= spans@.len(),
            windows_of(per_cluster@, spans@),
            best is None <==> i == 0,
            best matches Some(v) ==> (exists|k: int|
                0 <= k < i && v == cluster_window(spans@, #[trigger] spans@[k].cluster)),
            best matches Some(v) ==> forall|k: int|
                0 <= k < i ==> v >= cluster_window(spans@, #[trigger] spans@[k].cluster),
        decreases spans@.len() - i,
    {
        let c = spans[i].cluster;
        proof {
            assert(has_span_of(spans@, c)) by {
                assert(spans@[i as int].cluster == c);
            }
        }
        let window = match per_cluster.get(&c) {
            Some(w) => *w,
            None => (0, 0),
        };
        let cycles = window.1.saturating_sub(window.0);
        assert(cycles == cluster_window(spans@, c));
        best = match best {
            Some(v) => if cycles > v {
                Some(cycles)
            } else {
                Some(v)
            },
            None => Some(cycles),
        };
        i += 1;
    }
    proof {
        if let Some(v) = best {
            assert forall|k: int| 0 <= k < spans@.len() implies v >= saturating_diff(
                #[trigger] spans@[k].end,
                spans@[k].begin,
            ) by {
                assert(v >= cluster_window(spans@, spans@[k].cluster));
                lemma_window_covers_span(spans@, k);
            }
        }
    }
    best
}

/// Whether some span of `spans` belongs to cluster `c`.
spec fn has_span_of(spans: Seq<Span>, c: u64) -> bool {
    exists|i: int| 0 <= i < spans.len() && (#[trigger] spans[i]).cluster == c
}

/// `windows` maps exactly the clusters of `spans`, each to its earliest begin and latest end.
spec fn windows_of(windows: Map<u64, (u64, u64)>, spans: Seq<Span>) -> bool {
    &&& forall|c: u64| #[trigger] windows.contains_key(c) <==> has_span_of(spans, c)
    &&& forall|c: u64|
        #[trigger] windows.contains_key(c) ==> windows[c] == (min_begin(spans, c), max_end(spans, c))
}

/// The window of cluster `s.cluster` widened to take in span `s`.
spec fn widened(window: (u64, u64), s: Span) -> (u64, u64) {
    (
        if s.begin < window.0 {
            s.begin
        } else {
            window.0
        },
        if s.end > window.1 {
            s.end
        } else {
            window.1
        },
    )
}

proof fn lemma_window_step(
    windows: Map<u64, (u64, u64)>,
    prefix: Seq<Span>,
    s: Span,
    window: (u64, u64),
)
    requires
        windows_of(windows, prefix),
        windows.contains_key(s.cluster) ==> window == widened(windows[s.cluster], s),
        !windows.contains_key(s.cluster) ==> window == (s.begin, s.end),
    ensures
        windows_of(windows.insert(s.cluster, window), prefix.push(s)),
{
    let next = prefix.push(s);
    let after = windows.insert(s.cluster, window);
    assert(next.drop_last() =~= prefix);
    if !windows.contains_key(s.cluster) {
        assert forall|i: int| 0 <= i < prefix.len() implies (#[trigger] prefix[i]).cluster
            != s.cluster by {
            if prefix[i].cluster == s.cluster {
                assert(has_span_of(prefix, s.cluster));
            }
        }
        lemma_absent_cluster(prefix, s.cluster);
    }
    assert forall|c: u64| #[trigger] after.contains_key(c) <==> has_span_of(next, c) by {
        if c == s.cluster {
            assert(next[prefix.len() as int] == s);
        } else {
            if has_span_of(prefix, c) {
                let i = choose|i: int| 0 <= i < prefix.len() && (#[trigger] prefix[i]).cluster == c;
                assert(next[i] == prefix[i]);
            }
            if has_span_of(next, c) {
                let i = choose|i: int| 0 <= i < next.len() && (#[trigger] next[i]).cluster == c;
                assert(i < prefix.len());
                assert(prefix[i] == next[i]);
            }
        }
    }
}

/// Each cluster of `spans` with its earliest begin and latest end.
fn cluster_windows(spans: &[Span]) -> (windows: HashMap<u64, (u64, u64)>)
    ensures
        windows_of(windows@, spans@),
{
    broadcast use vstd::std_specs::hash::group_hash_axioms;

    let mut windows: HashMap<u64, (u64, u64)> = HashMap::new();
    let mut k: usize = 0;
    assert(spans@.take(0) =~= Seq::<Span>::empty());
    while k < spans.len()
        invariant
            k <= spans@.len(),
            windows_of(windows@, spans@.take(k as int)),
        decreases spans@.len() - k,
    {
        let s = spans[k];
        assert(spans@.take(k + 1) =~= spans@.take(k as int).push(s));
        let window = match windows.get(&s.cluster) {
            Some(w) => (
                if s.begin < w.0 {
                    s.begin
                } else {
                    w.0
                },
                if s.end > w.1 {
                    s.end
                } else {
                    w.1
                },
            ),
            None => (s.begin, s.end),
        };
        proof {
            lemma_window_step(windows@, spans@.take(k as int), s, window);
        }
        windows.insert(s.cluster, window);
        k += 1;
    }
    assert(spans@.take(spans@.len() as int) =~= spans@);
    windows
}

proof fn lemma_absent_cluster(spans: Seq<Span>, c: u64)
    requires
        forall|i: int| 0 <= i < spans.len() ==> (#[trigger] spans[i]).cluster != c,
    ensures
        min_begin(spans, c) == u64::MAX,
        max_end(spans, c) == 0,
    decreases spans.len(),
{
    if spans.len() > 0 {
        lemma_absent_cluster(spans.drop_last(), c);
    }
}

/// The span fields recorded so far: `begin_cycle`, `end_cycle` and `tid` (the cluster).
#[derive(Clone, Copy, Debug)]
pub struct FieldExtractor {
    pub begin: Option<u64>,
    pub end: Option<u64>,
    pub cluster: Option<u64>,
}

impl FieldExtractor {
    /// No field recorded yet.
    pub fn new() -> (e: FieldExtractor)
        ensures
            e.begin is None,
            e.end is None,
            e.cluster is None,
    {
        FieldExtractor { begin: None, end: None, cluster: None }
    }

    /// Records the `u64` field `field`: `begin_cycle`, `end_cycle` and `tid` are kept, any
    /// other field is ignored.
    pub fn record_u64(&mut self, field: &str, value: u64)
        ensures
            field@ == "begin_cycle"@ ==> *final(self) == (FieldExtractor {
                begin: Some(value),
                ..*old(self)
            }),
            field@ == "end_cycle"@ ==> *final(self) == (FieldExtractor {
                end: Some(value),
                ..*old(self)
            }),
            field@ == "tid"@ ==> *final(self) == (FieldExtractor {
                cluster: Some(value),
                ..*old(self)
            }),
            field@ != "begin_cycle"@ && field@ != "end_cycle"@ && field@ != "tid"@ ==> *final(self)
                == *old(self),
    {
        proof {
            reveal_strlit("begin_cycle");
            reveal_strlit("end_cycle");
            reveal_strlit("tid");
            assert("begin_cycle"@[0] != "end_cycle"@[0]);
            assert("begin_cycle"@.len() != "tid"@.len());
            assert("end_cycle"@.len() != "tid"@.len());
        }
        if same_str(field, "begin_cycle") {
            self.begin = Some(value);
        } else if same_str(field, "end_cycle") {
            self.end = Some(value);
        } else if same_str(field, "tid") {
            self.cluster = Some(value);
        }
    }

    /// The span the fields describe, once all three were recorded.
    pub fn span(&self) -> (s: Option<Span>)
        ensures
            s is None <==> (self.cluster is None || self.begin is None || self.end is None),
            s matches Some(sp) ==> Some(sp.cluster) == self.cluster && Some(sp.begin) == self.begin
                && Some(sp.end) == self.end,
    {
        match (self.cluster, self.begin, self.end) {
            (Some(cluster), Some(begin), Some(end)) => Some(Span { cluster, begin, end }),
            _ => None,
        }
    }
}

impl Default for FieldExtractor {
    fn default() -> (e: FieldExtractor)
        ensures
            e.begin is None,
            e.end is None,
            e.cluster is None,
    {
        FieldExtractor::new()
    }
}

/// Whether a span of target `target` is an NPU span.
pub fn is_npu_target(target: &str) -> (r: bool)
    ensures
        r == (target@ == TRACING_TARGET_NPU@),
{
    same_str(target, TRACING_TARGET_NPU)
}

/// Whether the profile level `level` (in any ASCII case) arms cycle collection: `info`,
/// `debug` or `trace`.
pub fn profiling_level_enabled(level: &str) -> (r: bool)
    ensures
        r == (lowercase_matches(level@, "info"@) || lowercase_matches(level@, "debug"@)
            || lowercase_matches(level@, "trace"@)),
{
    lowercase_equals(level, "info") || lowercase_equals(level, "debug") || lowercase_equals(
        level,
        "trace",
    )
}

/// The settle time in milliseconds: the configured value when it parses as a `u64`,
/// otherwise 500.
pub fn settle_millis(configured: Option<&str>) -> (ms: u64)
    ensures
        ms == match configured {
            Some(s) => match parse_u64_spec(s@) {
                Some(v) => v,
                None => DEFAULT_SETTLE_MS,
            },
            None => DEFAULT_SETTLE_MS,
        },
{
    match configured {
        Some(s) => match parse_u64(s) {
            Some(v) => v,
            None => DEFAULT_SETTLE_MS,
        },
        None => DEFAULT_SETTLE_MS,
    }
}

} // verus!
