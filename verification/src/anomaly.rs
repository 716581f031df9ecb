//! Mathematical model of the burst query engine: the sliding window it
//! sweeps over a chronologically ordered snapshot, which readings it
//! includes, and the laws that hold of the result.

use vstd::prelude::*;

use crate::ping::PingReading;

verus! {

/// A burst query: which latencies count as elevated, how many of them a
/// window must hold to qualify, and how wide a window may stretch in time.
#[derive(Debug, Clone, Copy, PartialEq, Eq, Structural)]
pub struct PingReadingQuery {
    /// A reading counts as elevated when its latency exceeds this, in
    /// milliseconds.
    pub latency_higher_than: u64,
    /// A window qualifies when it holds strictly more elevated readings
    /// than this.
    pub min_intensity: u32,
    /// Maximum time span of a window, in milliseconds.
    pub max_window: u64,
}

/// Whether a reading's latency exceeds the threshold.
pub open spec fn over_threshold(threshold: u64, r: PingReading) -> bool {
    r.latency_millis > threshold
}

/// Whether index `l` may stay at the head of the window whose newest element
/// is `j`: its timestamp is not ahead of `j`'s (no clock anomaly) and lies
/// within the window span.
pub open spec fn head_fits(s: Seq<PingReading>, max_window: u64, l: int, j: int) -> bool {
    &&& s[l].timestamp_millis <= s[j].timestamp_millis
    &&& s[j].timestamp_millis - s[l].timestamp_millis <= max_window
}

/// The first index at or after `lo` that may stay at the head of the window
/// ending at `j`; `j` itself always fits, so the search stops there.  This is
/// the engine's eviction loop: heads that are too old, or whose timestamps
/// run ahead of `j`'s (a clock anomaly), are evicted one by one.
pub open spec fn advance_head(s: Seq<PingReading>, max_window: u64, lo: int, j: int) -> int
    decreases j - lo,
{
    if lo >= j || head_fits(s, max_window, lo, j) {
        if lo >= j {
            j
        } else {
            lo
        }
    } else {
        advance_head(s, max_window, lo + 1, j)
    }
}

/// The head of the window right after the engine processed element `j`: the
/// window is then `s[window_lo(..)..=j]`.  The head only moves forward as
/// `j` grows.
pub open spec fn window_lo(s: Seq<PingReading>, max_window: u64, j: int) -> int
    decreases j,
{
    if j <= 0 {
        0
    } else {
        advance_head(s, max_window, window_lo(s, max_window, j - 1), j)
    }
}

/// How many readings in `s[lo..hi]` (half-open) are over the threshold.
pub open spec fn count_over(s: Seq<PingReading>, threshold: u64, lo: int, hi: int) -> nat
    decreases hi - lo,
{
    if lo >= hi {
        0
    } else {
        count_over(s, threshold, lo, hi - 1) + (if over_threshold(threshold, s[hi - 1]) {
            1nat
        } else {
            0nat
        })
    }
}

/// Whether the window examined right after processing element `j` qualifies
/// as a burst: strictly more elevated readings than `min_intensity`.
pub open spec fn window_qualifies(q: PingReadingQuery, s: Seq<PingReading>, j: int) -> bool {
    count_over(s, q.latency_higher_than, window_lo(s, q.max_window, j), j + 1) > q.min_intensity
}

/// Whether reading `i` was covered by a qualifying window among those
/// examined after elements `i..m` (exclusive of `m`).
pub open spec fn included_upto(q: PingReadingQuery, s: Seq<PingReading>, i: int, m: int) -> bool {
    exists|j: int|
        i <= j < m && window_lo(s, q.max_window, j) <= i && window_qualifies(q, s, j)
}

/// Whether reading `i` belongs to the query result: some window examined
/// during the whole sweep covered it and qualified.
pub open spec fn included(q: PingReadingQuery, s: Seq<PingReading>, i: int) -> bool {
    included_upto(q, s, i, s.len() as int)
}

/// The included readings among the first `n`, in chronological order.
pub open spec fn included_prefix(q: PingReadingQuery, s: Seq<PingReading>, n: int) -> Seq<
    PingReading,
>
    decreases n,
{
    if n <= 0 {
        Seq::empty()
    } else {
        included_prefix(q, s, n - 1) + (if included(q, s, n - 1) {
            seq![s[n - 1]]
        } else {
            Seq::empty()
        })
    }
}

/// The full result of the burst query engine over snapshot `s`: every
/// included reading, in chronological order.
pub open spec fn query_spec(q: PingReadingQuery, s: Seq<PingReading>) -> Seq<PingReading> {
    included_prefix(q, s, s.len() as int)
}

/// Whether the snapshot's timestamps are non-decreasing in arrival order.
pub open spec fn timestamps_sorted(s: Seq<PingReading>) -> bool {
    forall|a: int, b: int|
        0 <= a <= b < s.len() ==> s[a].timestamp_millis <= s[b].timestamp_millis
}

/// Whether two timestamps lie within `w` milliseconds of each other.
pub open spec fn within_window(a: u64, b: u64, w: u64) -> bool {
    if a <= b {
        b - a <= w
    } else {
        a - b <= w
    }
}

/// Dropping the head element off a half-open range splits the count.
pub proof fn lemma_count_over_front(s: Seq<PingReading>, threshold: u64, lo: int, hi: int)
    requires
        lo < hi,
    ensures
        count_over(s, threshold, lo, hi) == count_over(s, threshold, lo + 1, hi) + (
        if over_threshold(threshold, s[lo]) {
            1nat
        } else {
            0nat
        }),
    decreases hi - lo,
{
    if lo + 1 < hi {
        lemma_count_over_front(s, threshold, lo, hi - 1);
    } else {
        assert(count_over(s, threshold, lo, hi - 1) == 0);
        assert(count_over(s, threshold, lo + 1, hi) == 0);
    }
}

/// A count never exceeds the width of its range.
pub proof fn lemma_count_over_bound(s: Seq<PingReading>, threshold: u64, lo: int, hi: int)
    ensures
        count_over(s, threshold, lo, hi) <= (if hi >= lo {
            hi - lo
        } else {
            0
        }),
    decreases hi - lo,
{
    if lo < hi {
        lemma_count_over_bound(s, threshold, lo, hi - 1);
    }
}

/// A positive count names an elevated reading inside the range.
pub proof fn lemma_count_over_witness(s: Seq<PingReading>, threshold: u64, lo: int, hi: int)
    requires
        count_over(s, threshold, lo, hi) > 0,
    ensures
        exists|k: int| lo <= k < hi && over_threshold(threshold, s[k]),
    decreases hi - lo,
{
    if lo < hi {
        if over_threshold(threshold, s[hi - 1]) {
            assert(lo <= hi - 1 < hi && over_threshold(threshold, s[hi - 1]));
        } else {
            lemma_count_over_witness(s, threshold, lo, hi - 1);
        }
    }
}

/// The advanced head stays between where it started and `j`, and fits.
pub proof fn lemma_advance_head_range(s: Seq<PingReading>, max_window: u64, lo: int, j: int)
    requires
        0 <= lo <= j,
    ensures
        lo <= advance_head(s, max_window, lo, j) <= j,
        head_fits(s, max_window, advance_head(s, max_window, lo, j), j),
    decreases j - lo,
{
    if !(lo >= j || head_fits(s, max_window, lo, j)) {
        lemma_advance_head_range(s, max_window, lo + 1, j);
    }
}

/// The window head lies between the start of the snapshot and `j`, and fits
/// as a head for `j`.
pub proof fn lemma_window_lo_range(s: Seq<PingReading>, max_window: u64, j: int)
    requires
        j >= 0,
    ensures
        0 <= window_lo(s, max_window, j) <= j,
        head_fits(s, max_window, window_lo(s, max_window, j), j),
    decreases j,
{
    if j == 0 {
        assert(head_fits(s, max_window, 0, 0));
    } else {
        lemma_window_lo_range(s, max_window, j - 1);
        lemma_advance_head_range(s, max_window, window_lo(s, max_window, j - 1), j);
    }
}

/// A member of the chronological result is an included snapshot element, and
/// conversely.
pub proof fn lemma_included_prefix_contains(
    q: PingReadingQuery,
    s: Seq<PingReading>,
    n: int,
    x: PingReading,
)
    requires
        n <= s.len(),
    ensures
        included_prefix(q, s, n).contains(x) <==> (exists|i: int|
            0 <= i < n && included(q, s, i) && s[i] == x),
    decreases n,
{
    if n > 0 {
        lemma_included_prefix_contains(q, s, n - 1, x);
        if included_prefix(q, s, n).contains(x) {
            if !(included_prefix(q, s, n - 1).contains(x)) {
                assert(included(q, s, n - 1) && s[n - 1] == x);
            }
        }
        if exists|i: int| 0 <= i < n && included(q, s, i) && s[i] == x {
            let i = choose|i: int| 0 <= i < n && included(q, s, i) && s[i] == x;
            if i < n - 1 {
                assert(included_prefix(q, s, n - 1).contains(x));
                assert(included_prefix(q, s, n) == included_prefix(q, s, n - 1) + (if included(
                    q,
                    s,
                    n - 1,
                ) {
                    seq![s[n - 1]]
                } else {
                    Seq::empty()
                }));
                let k = choose|k: int|
                    0 <= k < included_prefix(q, s, n - 1).len() && #[trigger] included_prefix(
                        q,
                        s,
                        n - 1,
                    )[k] == x;
                assert(included_prefix(q, s, n)[k] == x);
            } else {
                let len = included_prefix(q, s, n).len();
                assert(included_prefix(q, s, n)[len - 1] == x);
            }
        }
    }
}

/// Monotonicity law: raising `min_intensity` never adds a reading to the
/// result; every reading returned under the stricter query is also returned
/// under the looser one.
pub proof fn lemma_query_monotone(
    q1: PingReadingQuery,
    q2: PingReadingQuery,
    s: Seq<PingReading>,
)
    requires
        q2.latency_higher_than == q1.latency_higher_than,
        q2.max_window == q1.max_window,
        q2.min_intensity >= q1.min_intensity,
    ensures
        forall|i: int| 0 <= i < s.len() && included(q2, s, i) ==> included(q1, s, i),
        forall|x: PingReading| query_spec(q2, s).contains(x) ==> query_spec(q1, s).contains(x),
{
    assert forall|i: int| 0 <= i < s.len() && included(q2, s, i) implies included(q1, s, i) by {
        let j = choose|j: int|
            i <= j < s.len() && window_lo(s, q2.max_window, j) <= i && window_qualifies(q2, s, j);
        assert(window_qualifies(q1, s, j));
    }
    assert forall|x: PingReading| query_spec(q2, s).contains(x) implies query_spec(
        q1,
        s,
    ).contains(x) by {
        lemma_included_prefix_contains(q2, s, s.len() as int, x);
        lemma_included_prefix_contains(q1, s, s.len() as int, x);
    }
}

/// Window containment law, for snapshots whose timestamps are in order:
/// every returned reading lies within `max_window` of some elevated reading
/// that is itself returned (possibly the reading itself).
pub proof fn lemma_window_containment(q: PingReadingQuery, s: Seq<PingReading>, i: int)
    requires
        timestamps_sorted(s),
        0 <= i < s.len(),
        included(q, s, i),
    ensures
        exists|k: int|
            0 <= k < s.len() && over_threshold(q.latency_higher_than, s[k]) && included(q, s, k)
                && within_window(s[i].timestamp_millis, s[k].timestamp_millis, q.max_window),
{
    let j = choose|j: int|
        i <= j < s.len() && window_lo(s, q.max_window, j) <= i && window_qualifies(q, s, j);
    let lo = window_lo(s, q.max_window, j);
    lemma_window_lo_range(s, q.max_window, j);
    lemma_count_over_witness(s, q.latency_higher_than, lo, j + 1);
    let k = choose|k: int| lo <= k < j + 1 && over_threshold(q.latency_higher_than, s[k]);
    assert(included(q, s, k)) by {
        assert(k <= j < s.len() && window_lo(s, q.max_window, j) <= k && window_qualifies(
            q,
            s,
            j,
        ));
    }
    assert(within_window(s[i].timestamp_millis, s[k].timestamp_millis, q.max_window)) by {
        assert(s[lo].timestamp_millis <= s[i].timestamp_millis);
        assert(s[lo].timestamp_millis <= s[k].timestamp_millis);
        assert(s[i].timestamp_millis <= s[j].timestamp_millis);
        assert(s[k].timestamp_millis <= s[j].timestamp_millis);
        assert(s[j].timestamp_millis - s[lo].timestamp_millis <= q.max_window);
    }
}

/// Idempotence law: the engine's result is a function of the query and the
/// snapshot alone, so two runs over the same snapshot agree.
pub proof fn lemma_query_idempotent(
    q: PingReadingQuery,
    s: Seq<PingReading>,
    r1: Seq<PingReading>,
    r2: Seq<PingReading>,
)
    requires
        r1 == query_spec(q, s),
        r2 == query_spec(q, s),
    ensures
        r1 == r2,
{
}

} // verus!
