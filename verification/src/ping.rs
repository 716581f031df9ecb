//! Latency readings, the bounded per-target history, and the parser that
//! turns a probe output line into a reading.

use vstd::prelude::*;
use vstd::string::StringSliceAdditionalSpecFns;

use crate::anomaly::advance_head;
use crate::anomaly::count_over;
use crate::anomaly::head_fits;
use crate::anomaly::included;
use crate::anomaly::included_prefix;
use crate::anomaly::included_upto;
use crate::anomaly::lemma_count_over_bound;
use crate::anomaly::lemma_count_over_front;
use crate::anomaly::query_spec;
use crate::anomaly::window_lo;
use crate::anomaly::window_qualifies;

pub use crate::anomaly::PingReadingQuery;

verus! {

/// One latency measurement: how long the probe round trip took and when the
/// line reporting it was read, both in integer milliseconds.
#[derive(Debug, Clone, Copy, PartialEq, Eq, Structural)]
pub struct PingReading {
    /// Round-trip latency in milliseconds.
    pub latency_millis: u64,
    /// Wall-clock timestamp in milliseconds since an arbitrary fixed origin.
    pub timestamp_millis: u64,
}

impl PingReading {
    /// Builds a reading from its two measurements.
    pub fn new(latency_millis: u64, timestamp_millis: u64) -> (r: PingReading)
        ensures
            r == (PingReading { latency_millis, timestamp_millis }),
    {
        PingReading { latency_millis, timestamp_millis }
    }
}

impl PingReadingQuery {
    /// Builds a query from its three parameters.
    pub fn new(latency_higher_than: u64, min_intensity: u32, max_window: u64) -> (q:
        PingReadingQuery)
        ensures
            q == (PingReadingQuery { latency_higher_than, min_intensity, max_window }),
    {
        PingReadingQuery { latency_higher_than, min_intensity, max_window }
    }

    /// The burst query engine: one left-to-right sweep over a snapshot,
    /// keeping a sliding window of the most recent readings that lie within
    /// `max_window` of the newest one (heads whose timestamps run ahead of
    /// the newest reading are evicted as clock anomalies), and returning
    /// every reading that was covered by a window holding strictly more than
    /// `min_intensity` elevated readings.  The result is in chronological
    /// order, each included reading reported once.
    pub fn query(&self, readings: &[PingReading]) -> (r: Vec<PingReading>)
        ensures
            r@ == query_spec(*self, readings@),
    {
        let ghost s = readings@;
        let ghost q = *self;
        let n = readings.len();

        let mut marked: Vec<bool> = Vec::new();
        while marked.len() < n
            invariant
                marked@.len() <= n,
                forall|k: int| 0 <= k < marked@.len() ==> !marked@[k],
            decreases n - marked.len(),
        {
            marked.push(false);
        }

        let mut lo: usize = 0;
        let mut intensity: usize = 0;
        let mut i: usize = 0;
        while i < n
            invariant
                n == s.len(),
                s == readings@,
                q == *self,
                marked@.len() == n,
                i <= n,
                lo as int == window_lo(s, q.max_window, i as int - 1),
                lo <= i,
                intensity as nat == count_over(s, q.latency_higher_than, lo as int, i as int),
                intensity <= i - lo,
                forall|k: int| 0 <= k < n ==> marked@[k] == included_upto(q, s, k, i as int),
            decreases n - i,
        {
            let over = readings[i].latency_millis > self.latency_higher_than;
            if over {
                intensity = intensity + 1;
            }
            assert(intensity as nat == count_over(
                s,
                q.latency_higher_than,
                lo as int,
                i as int + 1,
            ));

            let ghost lo0 = lo as int;
            while !(readings[lo].timestamp_millis <= readings[i].timestamp_millis
                && readings[i].timestamp_millis - readings[lo].timestamp_millis <= self.max_window)
                invariant
                    n == s.len(),
                    s == readings@,
                    q == *self,
                    i < n,
                    lo0 <= lo as int,
                    lo <= i,
                    advance_head(s, q.max_window, lo0, i as int) == advance_head(
                        s,
                        q.max_window,
                        lo as int,
                        i as int,
                    ),
                    intensity as nat == count_over(
                        s,
                        q.latency_higher_than,
                        lo as int,
                        i as int + 1,
                    ),
                    intensity <= i + 1 - lo,
                decreases i - lo,
            {
                proof {
                    assert(!head_fits(s, q.max_window, lo as int, i as int));
                    assert(head_fits(s, q.max_window, i as int, i as int));
                    assert(lo < i);
                    lemma_count_over_front(s, q.latency_higher_than, lo as int, i as int + 1);
                }
                if readings[lo].latency_millis > self.latency_higher_than {
                    intensity = intensity - 1;
                }
                lo = lo + 1;
                proof {
                    lemma_count_over_bound(s, q.latency_higher_than, lo as int, i as int + 1);
                }
            }
            proof {
                assert(head_fits(s, q.max_window, lo as int, i as int));
                assert(advance_head(s, q.max_window, lo as int, i as int) == lo as int);
                if i == 0 {
                    assert(window_lo(s, q.max_window, 0) == advance_head(s, q.max_window, 0, 0));
                }
                assert(window_lo(s, q.max_window, i as int) == lo as int);
            }

            if intensity > self.min_intensity as usize {
                assert(window_qualifies(q, s, i as int));
                let ghost marks0 = marked@;
                let mut k: usize = lo;
                while k <= i
                    invariant
                        n == s.len(),
                        i < n,
                        lo <= k,
                        k <= i + 1,
                        marked@.len() == n,
                        forall|m: int|
                            0 <= m < n ==> (#[trigger] marked@[m]) == (marks0[m] || (lo as int <= m
                                < k as int)),
                    decreases i + 1 - k,
                {
                    marked[k] = true;
                    k = k + 1;
                }
                assert forall|m: int| 0 <= m < n implies marked@[m] == included_upto(
                    q,
                    s,
                    m,
                    i as int + 1,
                ) by {
                    if marked@[m] {
                        if marks0[m] {
                            assert(included_upto(q, s, m, i as int));
                            let j = choose|j: int|
                                m <= j < i as int && window_lo(s, q.max_window, j) <= m
                                    && window_qualifies(q, s, j);
                            assert(m <= j < i as int + 1 && window_lo(s, q.max_window, j) <= m
                                && window_qualifies(q, s, j));
                            assert(included_upto(q, s, m, i as int + 1));
                        } else {
                            assert(lo as int <= m <= i as int);
                            assert(m <= i as int && window_lo(s, q.max_window, i as int) <= m
                                && window_qualifies(q, s, i as int));
                            assert(included_upto(q, s, m, i as int + 1));
                        }
                    } else {
                        assert(k as int == i as int + 1);
                        assert(!marks0[m] && !(lo as int <= m <= i as int));
                        if included_upto(q, s, m, i as int + 1) {
                            let j = choose|j: int|
                                m <= j < i as int + 1 && window_lo(s, q.max_window, j) <= m
                                    && window_qualifies(q, s, j);
                            if j < i as int {
                                assert(m <= j < i as int && window_lo(s, q.max_window, j) <= m
                                    && window_qualifies(q, s, j));
                                assert(included_upto(q, s, m, i as int));
                                assert(false);
                            } else {
                                assert(j == i as int);
                                assert(lo as int <= m <= i as int);
                                assert(false);
                            }
                        }
                        assert(!included_upto(q, s, m, i as int + 1));
                    }
                }
            } else {
                assert(!window_qualifies(q, s, i as int));
                assert forall|m: int| 0 <= m < n implies marked@[m] == included_upto(
                    q,
                    s,
                    m,
                    i as int + 1,
                ) by {
                    if included_upto(q, s, m, i as int + 1) {
                        let j = choose|j: int|
                            m <= j < i as int + 1 && window_lo(s, q.max_window, j) <= m
                                && window_qualifies(q, s, j);
                        assert(j < i as int);
                        assert(included_upto(q, s, m, i as int));
                    } else {
                        if included_upto(q, s, m, i as int) {
                            let j = choose|j: int|
                                m <= j < i as int && window_lo(s, q.max_window, j) <= m
                                    && window_qualifies(q, s, j);
                            assert(included_upto(q, s, m, i as int + 1));
                        }
                    }
                }
            }
            i = i + 1;
        }

        let mut out: Vec<PingReading> = Vec::new();
        let mut c: usize = 0;
        while c < n
            invariant
                n == s.len(),
                s == readings@,
                q == *self,
                marked@.len() == n,
                c <= n,
                forall|m: int| 0 <= m < n ==> marked@[m] == included(q, s, m),
                out@ == included_prefix(q, s, c as int),
            decreases n - c,
        {
            if marked[c] {
                out.push(readings[c]);
            }
            assert(out@ =~= included_prefix(q, s, c as int + 1));
            c = c + 1;
        }
        assert(out@ == query_spec(q, s));
        out
    }
}

/// How many readings a history may hold for a sampling interval and a total
/// retention length, both in milliseconds: the quotient, at least one, and
/// capped at what a vector can address.
pub open spec fn spec_max_readings(interval_millis: u64, history_length_millis: u64) -> int {
    let q = history_length_millis as int / interval_millis as int;
    if q < 1 {
        1
    } else if q > usize::MAX {
        usize::MAX as int
    } else {
        q
    }
}

/// One append to a bounded history: push the new reading, then evict the
/// single oldest reading if the bound is now exceeded.
pub open spec fn history_step(s: Seq<PingReading>, max: int, r: PingReading) -> Seq<PingReading> {
    let pushed = s.push(r);
    if pushed.len() > max {
        pushed.skip(1)
    } else {
        pushed
    }
}

/// The history that a sequence of appends leaves behind, starting empty.
pub open spec fn history_after(appends: Seq<PingReading>, max: int) -> Seq<PingReading>
    decreases appends.len(),
{
    if appends.len() == 0 {
        Seq::empty()
    } else {
        history_step(history_after(appends.drop_last(), max), max, appends.last())
    }
}

/// Capacity law: after any sequence of appends into an empty history of
/// bound `max`, the history holds at most `max` readings, and exactly the
/// most recently appended ones, oldest first.
pub proof fn lemma_history_capacity(appends: Seq<PingReading>, max: int)
    requires
        max >= 1,
    ensures
        history_after(appends, max).len() <= max,
        history_after(appends, max) =~= (if appends.len() <= max {
            appends
        } else {
            appends.skip(appends.len() - max)
        }),
    decreases appends.len(),
{
    if appends.len() > 0 {
        lemma_history_capacity(appends.drop_last(), max);
    }
}

/// Whether a byte is ASCII whitespace, as the probe's output uses it: space,
/// tab, line feed, vertical tab, form feed or carriage return.
pub open spec fn is_ascii_space(b: u8) -> bool {
    b == 32 || (9 <= b && b <= 13)
}

/// Whether a byte is an ASCII decimal digit.
pub open spec fn is_ascii_digit(b: u8) -> bool {
    48 <= b && b <= 57
}

/// Whether every byte of the sequence is an ASCII decimal digit.
pub open spec fn all_digits(s: Seq<u8>) -> bool {
    forall|i: int| 0 <= i < s.len() ==> is_ascii_digit(s[i])
}

/// The decimal value of a sequence of ASCII digits, most significant first.
pub open spec fn digits_value(s: Seq<u8>) -> int
    decreases s.len(),
{
    if s.len() == 0 {
        0
    } else {
        10 * digits_value(s.drop_last()) + (s.last() - 48)
    }
}

/// Whether `pat` occurs in `s` starting exactly at position `i`.
pub open spec fn matches_at(s: Seq<u8>, pat: Seq<u8>, i: int) -> bool {
    &&& 0 <= i
    &&& i + pat.len() <= s.len()
    &&& s.subrange(i, i + pat.len() as int) == pat
}

/// The first position at or after `i` where `pat` occurs in `s`, or -1 when
/// it does not occur there.
pub open spec fn find_from(s: Seq<u8>, pat: Seq<u8>, i: int) -> int
    decreases s.len() - i,
        when pat.len() >= 1
{
    if i + pat.len() > s.len() {
        -1
    } else if matches_at(s, pat, i) {
        i
    } else {
        find_from(s, pat, i + 1)
    }
}

/// The sequence with its leading ASCII whitespace removed.
pub open spec fn trim_front(s: Seq<u8>) -> Seq<u8>
    decreases s.len(),
{
    if s.len() > 0 && is_ascii_space(s[0]) {
        trim_front(s.skip(1))
    } else {
        s
    }
}

/// The sequence with its trailing ASCII whitespace removed.
pub open spec fn trim_back(s: Seq<u8>) -> Seq<u8>
    decreases s.len(),
{
    if s.len() > 0 && is_ascii_space(s.last()) {
        trim_back(s.drop_last())
    } else {
        s
    }
}

/// The sequence with whitespace removed from both ends.
pub open spec fn trim_spec(s: Seq<u8>) -> Seq<u8> {
    trim_back(trim_front(s))
}

/// The bytes of the marker `time=` that precedes the latency figure in a
/// probe output line.
pub open spec fn time_marker() -> Seq<u8> {
    seq![116u8, 105u8, 109u8, 101u8, 61u8]
}

/// The bytes of the unit marker `ms` that follows the latency figure.
pub open spec fn ms_marker() -> Seq<u8> {
    seq![109u8, 115u8]
}

/// The single byte of the decimal point.
pub open spec fn dot_marker() -> Seq<u8> {
    seq![46u8]
}

/// The value of a plain decimal numeral — one or more digits, optionally
/// followed by a dot and further digits — truncated to its integer part, or
/// nothing when the bytes are not of that shape or the integer part does not
/// fit in 64 bits.  This is the only numeral shape the probe emits.
pub open spec fn parse_millis_spec(s: Seq<u8>) -> Option<u64> {
    let dot = find_from(s, dot_marker(), 0);
    let ipart = if dot < 0 {
        s
    } else {
        s.take(dot)
    };
    let fpart = if dot < 0 {
        Seq::<u8>::empty()
    } else {
        s.skip(dot + 1)
    };
    if ipart.len() >= 1 && all_digits(ipart) && all_digits(fpart) && digits_value(ipart)
        <= u64::MAX {
        Some(digits_value(ipart) as u64)
    } else {
        None
    }
}

/// The latency a probe output line reports: the decimal numeral standing
/// between the first `time=` and the first following `ms` (or the line's
/// end), with surrounding whitespace ignored; nothing when the line does not
/// carry one.
pub open spec fn parse_latency_spec(line: Seq<u8>) -> Option<u64> {
    let t = find_from(line, time_marker(), 0);
    if t < 0 {
        None
    } else {
        let rest = line.skip(t + time_marker().len() as int);
        let m = find_from(rest, ms_marker(), 0);
        let raw = if m < 0 {
            rest
        } else {
            rest.take(m)
        };
        parse_millis_spec(trim_spec(raw))
    }
}

/// The reading a probe output line yields when stamped at `timestamp_millis`.
pub open spec fn parse_reading_spec(line: Seq<u8>, timestamp_millis: u64) -> Option<PingReading> {
    match parse_latency_spec(line) {
        Some(latency_millis) => Some(PingReading { latency_millis, timestamp_millis }),
        None => None,
    }
}

/// A run of digits has a non-negative value.
proof fn lemma_digits_value_nonneg(s: Seq<u8>)
    requires
        all_digits(s),
    ensures
        digits_value(s) >= 0,
    decreases s.len(),
{
    if s.len() > 0 {
        assert(all_digits(s.drop_last()));
        lemma_digits_value_nonneg(s.drop_last());
        assert(is_ascii_digit(s.last()));
    }
}

/// A longer digit prefix never has a smaller value.
proof fn lemma_digits_value_monotone(s: Seq<u8>, i: int, j: int)
    requires
        0 <= i <= j <= s.len(),
        all_digits(s),
    ensures
        0 <= digits_value(s.take(i)) <= digits_value(s.take(j)),
    decreases j - i,
{
    assert(all_digits(s.take(i)));
    lemma_digits_value_nonneg(s.take(i));
    if i < j {
        lemma_digits_value_monotone(s, i, j - 1);
        assert(s.take(j).drop_last() =~= s.take(j - 1));
        assert(is_ascii_digit(s[j - 1]));
        assert(all_digits(s.take(j - 1)));
        lemma_digits_value_nonneg(s.take(j - 1));
    }
}

/// Builds the `time=` marker as bytes.
fn time_pattern() -> (p: Vec<u8>)
    ensures
        p@ == time_marker(),
{
    let mut p: Vec<u8> = Vec::new();
    p.push(116);
    p.push(105);
    p.push(109);
    p.push(101);
    p.push(61);
    assert(p@ =~= time_marker());
    p
}

/// Builds the `ms` marker as bytes.
fn ms_pattern() -> (p: Vec<u8>)
    ensures
        p@ == ms_marker(),
{
    let mut p: Vec<u8> = Vec::new();
    p.push(109);
    p.push(115);
    assert(p@ =~= ms_marker());
    p
}

/// Builds the decimal point as bytes.
fn dot_pattern() -> (p: Vec<u8>)
    ensures
        p@ == dot_marker(),
{
    let mut p: Vec<u8> = Vec::new();
    p.push(46);
    assert(p@ =~= dot_marker());
    p
}

/// Whether `pat` occurs in `s` starting exactly at `i`.
fn match_at(s: &[u8], pat: &[u8], i: usize) -> (r: bool)
    requires
        i + pat@.len() <= s@.len(),
    ensures
        r == matches_at(s@, pat@, i as int),
{
    let m = pat.len();
    let n = s.len();
    let mut j: usize = 0;
    while j < m
        invariant
            m == pat@.len(),
            n == s@.len(),
            i + m <= n,
            j <= m,
            forall|l: int| 0 <= l < j ==> s@[i + l] == pat@[l],
        decreases m - j,
    {
        if s[i + j] != pat[j] {
            proof {
                assert(s@.subrange(i as int, i + pat@.len() as int)[j as int] != pat@[j as int]);
            }
            return false;
        }
        j = j + 1;
    }
    proof {
        assert(s@.subrange(i as int, i + pat@.len() as int) =~= pat@);
    }
    true
}

/// The first occurrence of `pat` in `s`, if any.
fn find_sub(s: &[u8], pat: &[u8]) -> (r: Option<usize>)
    requires
        pat@.len() >= 1,
    ensures
        match r {
            Some(idx) => find_from(s@, pat@, 0) == idx as int && matches_at(s@, pat@, idx as int),
            None => find_from(s@, pat@, 0) == -1,
        },
{
    let n = s.len();
    let m = pat.len();
    let mut i: usize = 0;
    if m > n {
        return None;
    }
    while i <= n - m
        invariant
            n == s@.len(),
            m == pat@.len(),
            m >= 1,
            m <= n,
            i <= n,
            find_from(s@, pat@, 0) == find_from(s@, pat@, i as int),
        decreases n - i,
    {
        if match_at(s, pat, i) {
            return Some(i);
        }
        i = i + 1;
    }
    proof {
        assert(i + m > n);
        assert(find_from(s@, pat@, i as int) == -1);
    }
    None
}

/// Whether a byte is ASCII whitespace.
fn is_space_byte(c: u8) -> (r: bool)
    ensures
        r == is_ascii_space(c),
{
    c == 32 || (9 <= c && c <= 13)
}

/// The bytes with ASCII whitespace removed from both ends.
fn trim_ascii(s: &[u8]) -> (r: &[u8])
    ensures
        r@ == trim_spec(s@),
{
    proof {
        assert(s@.skip(0) =~= s@);
    }
    let mut a: usize = 0;
    while a < s.len() && is_space_byte(s[a])
        invariant
            a <= s@.len(),
            trim_front(s@) == trim_front(s@.skip(a as int)),
        decreases s@.len() - a,
    {
        proof {
            assert(s@.skip(a as int)[0] == s@[a as int]);
            assert(s@.skip(a as int).skip(1) =~= s@.skip(a as int + 1));
        }
        a = a + 1;
    }
    proof {
        if a < s@.len() {
            assert(!is_ascii_space(s@.skip(a as int)[0]));
        }
        assert(trim_front(s@) == s@.skip(a as int));
    }
    let ghost t = s@.skip(a as int);
    let mut b: usize = s.len();
    proof {
        assert(t.take(b - a) =~= t);
    }
    while b > a && is_space_byte(s[b - 1])
        invariant
            a <= b,
            b <= s@.len(),
            t == s@.skip(a as int),
            trim_back(t) == trim_back(t.take(b - a)),
        decreases b,
    {
        proof {
            assert(t.take(b - a).last() == s@[b - 1]);
            assert(t.take(b - a).drop_last() =~= t.take(b - 1 - a));
        }
        b = b - 1;
    }
    proof {
        if b > a {
            assert(t.take(b - a).last() == s@[b - 1]);
            assert(!is_ascii_space(t.take(b - a).last()));
        }
        assert(trim_back(t.take(b - a)) == t.take(b - a));
        assert(s@.subrange(a as int, b as int) =~= t.take(b - a));
    }
    &s[a..b]
}

/// Whether every byte is an ASCII digit.
fn check_all_digits(s: &[u8]) -> (r: bool)
    ensures
        r == all_digits(s@),
{
    let mut i: usize = 0;
    while i < s.len()
        invariant
            i <= s@.len(),
            forall|l: int| 0 <= l < i ==> is_ascii_digit(s@[l]),
        decreases s@.len() - i,
    {
        let c = s[i];
        if !(48 <= c && c <= 57) {
            return false;
        }
        i = i + 1;
    }
    true
}

/// The value of a run of ASCII digits, or nothing when it exceeds 64 bits.
fn parse_digits(s: &[u8]) -> (r: Option<u64>)
    requires
        all_digits(s@),
        s@.len() >= 1,
    ensures
        r == (if digits_value(s@) <= u64::MAX {
            Some(digits_value(s@) as u64)
        } else {
            None::<u64>
        }),
{
    let mut acc: u64 = 0;
    let mut i: usize = 0;
    while i < s.len()
        invariant
            all_digits(s@),
            i <= s@.len(),
            acc == digits_value(s@.take(i as int)),
        decreases s@.len() - i,
    {
        proof {
            assert(s@.take(i as int + 1).drop_last() =~= s@.take(i as int));
            assert(is_ascii_digit(s@[i as int]));
            lemma_digits_value_monotone(s@, i as int, i as int);
        }
        let c = s[i];
        let d = (c - 48) as u64;
        if acc > u64::MAX / 10 {
            proof {
                lemma_digits_value_monotone(s@, i as int + 1, s@.len() as int);
                assert(s@.take(s@.len() as int) =~= s@);
            }
            return None;
        }
        let acc10 = acc * 10;
        if d > u64::MAX - acc10 {
            proof {
                lemma_digits_value_monotone(s@, i as int + 1, s@.len() as int);
                assert(s@.take(s@.len() as int) =~= s@);
            }
            return None;
        }
        acc = acc10 + d;
        i = i + 1;
    }
    proof {
        assert(s@.take(s@.len() as int) =~= s@);
        lemma_digits_value_monotone(s@, 0, s@.len() as int);
    }
    Some(acc)
}

/// The integer part of a plain decimal numeral, or nothing when the bytes
/// are not of that shape or the value does not fit.
fn parse_millis(s: &[u8]) -> (r: Option<u64>)
    ensures
        r == parse_millis_spec(s@),
{
    let dp = dot_pattern();
    let (ipart, fpart) = match find_sub(s, dp.as_slice()) {
        Some(d) => {
            proof {
                assert(dot_marker().len() == 1);
                assert(d + 1 <= s@.len());
                assert(s@.subrange(0, d as int) =~= s@.take(d as int));
                assert(s@.subrange(d as int + 1, s@.len() as int) =~= s@.skip(d as int + 1));
            }
            let sl = s.len();
            (&s[0..d], &s[d + 1..sl])
        },
        None => {
            proof {
                assert(s@.subrange(s@.len() as int, s@.len() as int) =~= Seq::<u8>::empty());
            }
            (s, &s[s.len()..s.len()])
        },
    };
    if ipart.len() == 0 {
        return None;
    }
    if !check_all_digits(ipart) {
        return None;
    }
    if !check_all_digits(fpart) {
        return None;
    }
    parse_digits(ipart)
}

/// Bounded, append-only-with-eviction store of the readings for one target,
/// oldest first.
#[derive(Debug)]
pub struct PingReadingHistory {
    readings: Vec<PingReading>,
    max_readings: usize,
}

impl View for PingReadingHistory {
    type V = Seq<PingReading>;

    closed spec fn view(&self) -> Seq<PingReading> {
        self.readings@
    }
}

impl PingReadingHistory {
    /// The bound on how many readings are retained.
    pub closed spec fn capacity(&self) -> int {
        self.max_readings as int
    }

    /// The history never outgrows its bound, and the bound is positive.
    pub open spec fn well_formed(&self) -> bool {
        self@.len() <= self.capacity() && self.capacity() >= 1
    }

    /// Creates an empty history whose bound is derived from the sampling
    /// interval and the retention length.
    pub fn new(interval_millis: u64, history_length_millis: u64) -> (h: Self)
        requires
            interval_millis >= 1,
        ensures
            h@ =~= Seq::<PingReading>::empty(),
            h.capacity() == spec_max_readings(interval_millis, history_length_millis),
            h.well_formed(),
    {
        PingReadingHistory {
            readings: Vec::new(),
            max_readings: Self::calculate_max_readings(interval_millis, history_length_millis),
        }
    }

    /// How many readings fit into `history_length_millis` when one arrives
    /// every `interval_millis`, never less than one.
    pub fn calculate_max_readings(interval_millis: u64, history_length_millis: u64) -> (r: usize)
        requires
            interval_millis >= 1,
        ensures
            r == spec_max_readings(interval_millis, history_length_millis),
    {
        let q = history_length_millis / interval_millis;
        if q < 1 {
            1
        } else if q > usize::MAX as u64 {
            usize::MAX
        } else {
            q as usize
        }
    }

    /// Appends one reading, evicting the oldest if the history is full.
    pub fn add_reading(&mut self, r: PingReading)
        requires
            old(self).well_formed(),
        ensures
            final(self)@ =~= history_step(old(self)@, old(self).capacity(), r),
            final(self).capacity() == old(self).capacity(),
            final(self).well_formed(),
    {
        self.readings.push(r);
        if self.readings.len() > self.max_readings {
            self.readings.remove(0);
        }
    }

    /// The retained readings, oldest first.
    pub fn readings(&self) -> (r: &[PingReading])
        ensures
            r@ =~= self@,
    {
        self.readings.as_slice()
    }

    /// Reads one probe output line: if it carries a latency figure in the
    /// form `... time=<decimal> ms ...`, the reading it yields when stamped
    /// at `timestamp_millis`; otherwise nothing.
    pub fn parse_line_into_reading(line: &str, timestamp_millis: u64) -> (r: Option<PingReading>)
        ensures
            r == parse_reading_spec(line.spec_bytes(), timestamp_millis),
    {
        let bytes: &[u8] = line.as_bytes();
        let tp = time_pattern();
        match find_sub(bytes, tp.as_slice()) {
            None => None,
            Some(t) => {
                proof {
                    assert(time_marker().len() == 5);
                    assert(t + 5 <= bytes@.len());
                    assert(bytes@.subrange(t + time_marker().len() as int, bytes@.len() as int)
                        =~= bytes@.skip(t + time_marker().len() as int));
                }
                let bl = bytes.len();
                let rest = &bytes[t + 5..bl];
                let mp = ms_pattern();
                let raw = match find_sub(rest, mp.as_slice()) {
                    Some(m) => {
                        proof {
                            assert(rest@.subrange(0, m as int) =~= rest@.take(m as int));
                        }
                        &rest[0..m]
                    },
                    None => rest,
                };
                let num = trim_ascii(raw);
                match parse_millis(num) {
                    Some(latency_millis) => Some(
                        PingReading { latency_millis, timestamp_millis },
                    ),
                    None => None,
                }
            },
        }
    }

    /// Feeds one probe output line into the history: a line carrying a
    /// latency figure is appended as a reading stamped at
    /// `timestamp_millis`; any other line leaves the history unchanged.
    pub fn add_output_line(&mut self, line: &str, timestamp_millis: u64)
        requires
            old(self).well_formed(),
        ensures
            final(self).well_formed(),
            final(self).capacity() == old(self).capacity(),
            final(self)@ == match parse_reading_spec(line.spec_bytes(), timestamp_millis) {
                Some(r) => history_step(old(self)@, old(self).capacity(), r),
                None => old(self)@,
            },
    {
        if let Some(reading) = Self::parse_line_into_reading(line, timestamp_millis) {
            self.add_reading(reading);
        }
    }
}

} // verus!
