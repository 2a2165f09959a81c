//! The bounded, time-ordered candle series for one (symbol, interval) pair,
//! with the streaming update, gap-filling and retention-trimming logic.

use vstd::prelude::*;
use vstd::arithmetic::div_mod::{
    lemma_div_basics, lemma_div_multiples_vanish, lemma_fundamental_div_mod,
    lemma_mod_multiples_basic,
};
use vstd::arithmetic::mul::lemma_mul_inequality;
use crate::bucket::{
    lemma_aligned_below, lemma_period_start_properties, period_start, spec_period_start,
};
use crate::candle::{
    candle_wf, fresh_candle, merged_candle, spec_sat_add, synthetic_candle, Candle,
};

verus! {

/// The default bound on how many candles one series retains.
pub const RETENTION_CAP: usize = 1000;

/// Well-formedness of the candle sequence of a series with bucket width
/// `interval`: every candle satisfies the per-candle invariant, every
/// timestamp is aligned to the interval, and consecutive timestamps differ
/// by exactly the interval (so timestamps are strictly ascending and the
/// sequence has no real time gaps).
pub open spec fn series_candles_wf(s: Seq<Candle>, interval: u64) -> bool {
    &&& forall|i: int| 0 <= i < s.len() ==> candle_wf(#[trigger] s[i])
    &&& forall|i: int| 0 <= i < s.len() ==> (#[trigger] s[i]).timestamp % interval == 0
    &&& forall|i: int| 1 <= i < s.len() ==> (#[trigger] s[i]).timestamp == s[i - 1].timestamp
        + interval
}

/// The `n` gap-filling candles at `start`, `start + interval`, ...,
/// all flat at `prev_close` with zero volume.
pub open spec fn spec_gap(prev_close: u64, start: int, n: int, interval: int) -> Seq<Candle> {
    Seq::new(n as nat, |k: int| synthetic_candle(prev_close, (start + k * interval) as u64))
}

/// How many buckets lie strictly between a series' last bucket `last_ts`
/// and the new bucket `ps` (both aligned to `interval`).
pub open spec fn spec_gap_count(last_ts: int, ps: int, interval: int) -> int {
    (ps - last_ts) / interval - 1
}

/// The candle sequence after one tick `(price, volume, event_time)` lands
/// on `s`:
/// - on an empty series, one fresh candle for the tick's bucket;
/// - on a tick of the same bucket as the last candle, the last candle
///   absorbs the tick in place;
/// - on a tick of a strictly newer bucket, one flat zero-volume candle per
///   skipped bucket carries the last close forward, then a fresh candle for
///   the tick's bucket is appended;
/// - on a tick of an older bucket (out of order), the series is unchanged:
///   the tick is rejected rather than allowed to corrupt the ordering.
pub open spec fn spec_update(
    s: Seq<Candle>,
    interval: u64,
    price: u64,
    volume: u64,
    event_time: u64,
) -> Seq<Candle> {
    let ps = spec_period_start(event_time, interval);
    if s.len() == 0 {
        seq![fresh_candle(price, volume, ps as u64)]
    } else if s.last().timestamp == ps {
        s.update(s.len() - 1, merged_candle(s.last(), price, volume))
    } else if s.last().timestamp < ps {
        s + spec_gap(
            s.last().close,
            s.last().timestamp + interval,
            spec_gap_count(s.last().timestamp as int, ps, interval as int),
            interval as int,
        ) + seq![fresh_candle(price, volume, ps as u64)]
    } else {
        s
    }
}

/// Retention: a sequence no longer than `cap` is kept whole; a longer one
/// loses its oldest entries, keeping exactly the `cap` most recent.
pub open spec fn spec_trim(s: Seq<Candle>, cap: int) -> Seq<Candle> {
    if s.len() <= cap {
        s
    } else {
        s.subrange(s.len() - cap, s.len() as int)
    }
}

/// Arithmetic facts about the gap between two aligned bucket starts
/// `last_ts < ps`: the gap count is non-negative, stepping `interval` from
/// `last_ts` for `gap count + 1` steps lands exactly on `ps`, and every
/// intermediate step stays aligned and strictly below `ps`.
pub proof fn lemma_gap_geometry(last_ts: int, ps: int, iv: int)
    requires
        iv > 0,
        0 <= last_ts,
        last_ts < ps,
        last_ts % iv == 0,
        ps % iv == 0,
    ensures
        spec_gap_count(last_ts, ps, iv) >= 0,
        last_ts + iv + spec_gap_count(last_ts, ps, iv) * iv == ps,
        forall|k: int|
            0 <= k < spec_gap_count(last_ts, ps, iv) ==> last_ts + iv + #[trigger] (k * iv) + iv
                <= ps,
        forall|k: int|
            0 <= k < spec_gap_count(last_ts, ps, iv) ==> (last_ts + iv + #[trigger] (k * iv)) % iv
                == 0 && 0 <= k * iv,
{
    let n = spec_gap_count(last_ts, ps, iv);
    lemma_fundamental_div_mod(last_ts, iv);
    lemma_fundamental_div_mod(ps, iv);
    let q1 = last_ts / iv;
    let q2 = ps / iv;
    assert(last_ts == iv * q1);
    assert(ps == iv * q2);
    assert(q1 < q2) by (nonlinear_arith)
        requires
            iv > 0,
            last_ts == iv * q1,
            ps == iv * q2,
            last_ts < ps,
    ;
    assert(ps - last_ts == iv * (q2 - q1)) by (nonlinear_arith)
        requires
            last_ts == iv * q1,
            ps == iv * q2,
    ;
    lemma_div_multiples_vanish(q2 - q1, iv);
    assert(n == q2 - q1 - 1);
    assert(last_ts + iv + n * iv == ps) by (nonlinear_arith)
        requires
            last_ts == iv * q1,
            ps == iv * q2,
            n == q2 - q1 - 1,
    ;
    assert forall|k: int| 0 <= k < n implies last_ts + iv + #[trigger] (k * iv) + iv <= ps by {
        lemma_mul_inequality(k, n - 1, iv);
        assert((n - 1) * iv == n * iv - iv) by (nonlinear_arith);
    }
    assert forall|k: int| 0 <= k < n implies (last_ts + iv + #[trigger] (k * iv)) % iv == 0 && 0
        <= k * iv by {
        lemma_mul_inequality(0, k, iv);
        assert(last_ts + iv + k * iv == (q1 + 1 + k) * iv) by (nonlinear_arith)
            requires
                last_ts == iv * q1,
        ;
        lemma_mod_multiples_basic(q1 + 1 + k, iv);
    }
}

/// One update preserves the series invariant, never empties the series,
/// and leaves the last candle at the tick's bucket (or, for a rejected
/// out-of-order tick, at the bucket the series already ended with).
pub proof fn lemma_spec_update_wf(
    s: Seq<Candle>,
    interval: u64,
    price: u64,
    volume: u64,
    event_time: u64,
)
    requires
        interval > 0,
        series_candles_wf(s, interval),
    ensures
        series_candles_wf(spec_update(s, interval, price, volume, event_time), interval),
        spec_update(s, interval, price, volume, event_time).len() > 0,
        spec_update(s, interval, price, volume, event_time).last().timestamp == if s.len() > 0
            && spec_period_start(event_time, interval) < s.last().timestamp {
            s.last().timestamp as int
        } else {
            spec_period_start(event_time, interval)
        },
        s.len() > 0 && spec_period_start(event_time, interval) >= s.last().timestamp
            ==> spec_update(s, interval, price, volume, event_time).len() == s.len() + (
        spec_period_start(event_time, interval) - s.last().timestamp) / (interval as int),
{
    let ps = spec_period_start(event_time, interval);
    let res = spec_update(s, interval, price, volume, event_time);
    lemma_period_start_properties(event_time, interval);
    assert(0 <= ps <= u64::MAX);
    if s.len() == 0 {
        let single = seq![fresh_candle(price, volume, ps as u64)];
        assert(res == single);
        assert(single[0] == fresh_candle(price, volume, ps as u64));
        assert(forall|i: int| 0 <= i < res.len() ==> #[trigger] res[i] == single[0]);
        assert(res.last().timestamp == ps);
    } else if s.last().timestamp == ps {
        let m = merged_candle(s.last(), price, volume);
        let resm = s.update(s.len() - 1, m);
        assert(res == resm);
        assert(candle_wf(m));
        assert forall|i: int| 0 <= i < resm.len() implies candle_wf(#[trigger] resm[i]) && (
        resm[i]).timestamp % interval == 0 by {
            if i != s.len() - 1 {
                assert(resm[i] == s[i]);
            } else {
                assert(resm[i] == m);
                assert(m.timestamp == s[i].timestamp);
            }
        }
        assert forall|i: int| 1 <= i < resm.len() implies (#[trigger] resm[i]).timestamp == resm[
            i - 1].timestamp + interval by {
            assert(s[i].timestamp == s[i - 1].timestamp + interval);
            assert(resm[i - 1] == s[i - 1]);
            if i == s.len() - 1 {
                assert(resm[i] == m);
            } else {
                assert(resm[i] == s[i]);
            }
        }
        assert(resm.last() == m);
        assert((ps - s.last().timestamp) / (interval as int) == 0) by {
            assert(ps - s.last().timestamp == 0);
            lemma_div_basics(interval as int);
        }
    } else if s.last().timestamp < ps {
        let last_ts = s.last().timestamp as int;
        let iv = interval as int;
        let n = spec_gap_count(last_ts, ps, iv);
        let f = last_ts + iv;
        lemma_gap_geometry(last_ts, ps, iv);
        let gap = spec_gap(s.last().close, f, n, iv);
        let single = seq![fresh_candle(price, volume, ps as u64)];
        let resc = s + gap + single;
        assert(res == resc);
        assert(resc.len() == s.len() + n + 1);
        // each element of the result, by region
        assert forall|i: int| 0 <= i < resc.len() implies candle_wf(#[trigger] resc[i]) && (
        resc[i]).timestamp % interval == 0 by {
            if i < s.len() {
                assert(resc[i] == s[i]);
            } else if i < s.len() + n {
                let k = i - s.len();
                assert(gap[k] == synthetic_candle(s.last().close, (f + k * iv) as u64));
                assert(resc[i] == gap[k]);
                assert(f + k * iv + iv <= ps && (f + k * iv) % iv == 0 && 0 <= k * iv);
            } else {
                assert(resc[i] == single[0]);
                assert(resc[i] == fresh_candle(price, volume, ps as u64));
            }
        }
        assert forall|i: int| 1 <= i < resc.len() implies (#[trigger] resc[i]).timestamp == resc[
            i - 1].timestamp + interval by {
            if i < s.len() {
                assert(resc[i - 1] == s[i - 1] && resc[i] == s[i]);
                assert(s[i].timestamp == s[i - 1].timestamp + interval);
            } else if i == s.len() {
                // from s.last() to the first appended candle
                assert(resc[i - 1] == s[i - 1] && s[i - 1] == s.last());
                if n == 0 {
                    assert(resc[i] == single[0]);
                    assert(0 * iv == 0);
                    assert(f == ps);
                } else {
                    assert(resc[i] == gap[0]);
                    assert(0 * iv == 0);
                    assert(gap[0].timestamp == (f + 0 * iv) as u64);
                    assert(f + 0 * iv + iv <= ps);
                }
            } else if i < s.len() + n {
                let k = i - s.len();
                assert(resc[i - 1] == gap[k - 1] && resc[i] == gap[k]);
                assert(f + (k - 1) * iv + iv <= ps && 0 <= (k - 1) * iv);
                assert(f + k * iv + iv <= ps && 0 <= k * iv);
                assert(k * iv == (k - 1) * iv + iv) by (nonlinear_arith);
            } else {
                assert(i == s.len() + n);
                assert(n > 0);
                assert(resc[i - 1] == gap[n - 1]);
                assert(resc[i] == single[0]);
                assert(f + (n - 1) * iv + iv <= ps && 0 <= (n - 1) * iv);
                assert(n * iv == (n - 1) * iv + iv) by (nonlinear_arith);
                assert(f + n * iv == ps);
                assert(gap[n - 1].timestamp == (f + (n - 1) * iv) as u64);
            }
        }
        assert(resc.last() == single[0]);
        assert(resc.last().timestamp == ps);
        // the length clause: the result grows by (ps - last_ts) / iv candles
        assert(ps - last_ts == iv * (n + 1)) by (nonlinear_arith)
            requires
                last_ts + iv + n * iv == ps,
        ;
        lemma_div_multiples_vanish(n + 1, iv);
        assert(n + 1 == (ps - last_ts) / iv);
    } else {
        // out-of-order tick: unchanged
        assert(res == s);
    }
}

/// Trimming keeps the invariant, never empties a non-empty series, keeps
/// exactly the `cap` most recent candles, and every dropped candle is
/// strictly older than every kept one.
pub proof fn lemma_spec_trim(s: Seq<Candle>, interval: u64, cap: int)
    requires
        interval > 0,
        cap >= 1,
        series_candles_wf(s, interval),
    ensures
        series_candles_wf(spec_trim(s, cap), interval),
        spec_trim(s, cap).len() == if s.len() <= cap {
            s.len() as int
        } else {
            cap
        },
        s.len() > 0 ==> spec_trim(s, cap).last() == s.last(),
        forall|i: int, j: int|
            0 <= i < s.len() - cap && s.len() - cap <= j < s.len() ==> (#[trigger] s[i]).timestamp
                < (#[trigger] s[j]).timestamp,
        forall|j: int|
            0 <= j < spec_trim(s, cap).len() ==> #[trigger] spec_trim(s, cap)[j] == s[s.len()
                - spec_trim(s, cap).len() + j],
{
    let t = spec_trim(s, cap);
    if s.len() > cap {
        assert forall|i: int, j: int|
            0 <= i < s.len() - cap && s.len() - cap <= j < s.len() implies (
        #[trigger] s[i]).timestamp < (#[trigger] s[j]).timestamp by {
            lemma_series_ascending(s, interval, i, j);
        }
        let base = s.len() - cap;
        assert forall|j: int| 0 <= j < t.len() implies #[trigger] t[j] == s[base + j] by {}
        assert forall|i: int| 0 <= i < t.len() implies candle_wf(#[trigger] t[i]) && (
        t[i]).timestamp % interval == 0 by {
            assert(t[i] == s[base + i]);
        }
        assert forall|i: int| 1 <= i < t.len() implies (#[trigger] t[i]).timestamp == t[
            i - 1].timestamp + interval by {
            assert(t[i - 1] == s[base + i - 1] && t[i] == s[base + i]);
            assert(s[base + i].timestamp == s[base + i - 1].timestamp + interval);
        }
        assert(t.last() == s[s.len() - 1]);
    }
}

/// In a well-formed series timestamps are strictly ascending; the distance
/// between two candles' timestamps is exactly the number of buckets between
/// them times the interval.
pub proof fn lemma_series_ascending(s: Seq<Candle>, interval: u64, i: int, j: int)
    requires
        interval > 0,
        series_candles_wf(s, interval),
        0 <= i < j < s.len(),
    ensures
        s[j].timestamp == s[i].timestamp + (j - i) * interval,
        s[i].timestamp < s[j].timestamp,
    decreases j - i,
{
    if j == i + 1 {
        assert(s[j].timestamp == s[j - 1].timestamp + interval);
        assert(1 * (interval as int) == interval as int);
    } else {
        lemma_series_ascending(s, interval, i, j - 1);
        assert(s[j].timestamp == s[j - 1].timestamp + interval);
        assert((j - 1 - i) * interval + interval == (j - i) * interval) by (nonlinear_arith);
    }
    assert((j - i) * interval > 0) by (nonlinear_arith)
        requires
            j - i >= 1,
            interval >= 1,
    ;
}

/// What one tick did to a series.
#[derive(Clone, Copy, Debug, PartialEq, Eq, Structural)]
pub enum TickOutcome {
    /// The tick fell into the bucket of the last candle, which absorbed it.
    Merged,
    /// The tick opened a new bucket (possibly after gap-filling candles).
    Appended,
    /// The tick's bucket is older than the last candle's: it was dropped,
    /// leaving the series unchanged.
    Stale,
}

/// The outcome `CandleSeries::update` reports for a tick at `event_time`
/// landing on candles `s`.
pub open spec fn spec_outcome(s: Seq<Candle>, interval: u64, event_time: u64) -> TickOutcome {
    let ps = spec_period_start(event_time, interval);
    if s.len() == 0 {
        TickOutcome::Appended
    } else if s.last().timestamp == ps {
        TickOutcome::Merged
    } else if s.last().timestamp < ps {
        TickOutcome::Appended
    } else {
        TickOutcome::Stale
    }
}

/// The candles with timestamps in the inclusive range `[from, to]`, in
/// series order.
pub open spec fn spec_range_filter(s: Seq<Candle>, from: u64, to: u64) -> Seq<Candle>
    decreases s.len(),
{
    if s.len() == 0 {
        Seq::empty()
    } else {
        let rest = spec_range_filter(s.drop_last(), from, to);
        if from <= s.last().timestamp && s.last().timestamp <= to {
            rest.push(s.last())
        } else {
            rest
        }
    }
}

/// Any contiguous slice of a well-formed candle sequence is well-formed.
pub proof fn lemma_subrange_wf(s: Seq<Candle>, interval: u64, a: int, b: int)
    requires
        series_candles_wf(s, interval),
        0 <= a <= b <= s.len(),
    ensures
        series_candles_wf(s.subrange(a, b), interval),
{
    let p = s.subrange(a, b);
    assert(forall|i: int| 0 <= i < p.len() ==> #[trigger] p[i] == s[a + i]);
}

/// A prefix of a well-formed candle sequence is well-formed.
pub proof fn lemma_prefix_wf(s: Seq<Candle>, interval: u64, m: int)
    requires
        series_candles_wf(s, interval),
        0 <= m <= s.len(),
    ensures
        series_candles_wf(s.subrange(0, m), interval),
{
    let p = s.subrange(0, m);
    assert(forall|i: int| 0 <= i < p.len() ==> #[trigger] p[i] == s[i]);
}

/// Every candle the range filter keeps lies in the range, is well-formed,
/// and the kept candles remain strictly ascending in time.
pub proof fn lemma_range_filter_props(s: Seq<Candle>, interval: u64, from: u64, to: u64)
    requires
        interval > 0,
        series_candles_wf(s, interval),
    ensures
        forall|k: int|
            0 <= k < spec_range_filter(s, from, to).len() ==> from <= (#[trigger] spec_range_filter(
                s,
                from,
                to,
            )[k]).timestamp <= to,
        forall|k: int|
            0 <= k < spec_range_filter(s, from, to).len() ==> candle_wf(
                #[trigger] spec_range_filter(s, from, to)[k],
            ),
        forall|p: int, q: int|
            0 <= p < q < spec_range_filter(s, from, to).len() ==> (#[trigger] spec_range_filter(
                s,
                from,
                to,
            )[p]).timestamp < (#[trigger] spec_range_filter(s, from, to)[q]).timestamp,
        s.len() > 0 ==> forall|k: int|
            0 <= k < spec_range_filter(s, from, to).len() ==> (#[trigger] spec_range_filter(
                s,
                from,
                to,
            )[k]).timestamp <= s.last().timestamp,
    decreases s.len(),
{
    let r = spec_range_filter(s, from, to);
    if s.len() > 0 {
        let prev = s.drop_last();
        assert(prev =~= s.subrange(0, s.len() - 1));
        lemma_prefix_wf(s, interval, s.len() - 1);
        lemma_range_filter_props(prev, interval, from, to);
        let pr = spec_range_filter(prev, from, to);
        if prev.len() > 0 {
            assert(prev.last() == s[s.len() - 2]);
            assert(s.last().timestamp == s[s.len() - 2].timestamp + interval);
            assert(forall|k: int|
                0 <= k < pr.len() ==> (#[trigger] pr[k]).timestamp < s.last().timestamp);
        }
        if from <= s.last().timestamp && s.last().timestamp <= to {
            assert(r == pr.push(s.last()));
            assert(forall|k: int| 0 <= k < pr.len() ==> #[trigger] r[k] == pr[k]);
            assert(r[r.len() - 1] == s.last());
        } else {
            assert(r == pr);
        }
    }
}

/// The bounded, gap-free candle history for one (symbol, interval) pair.
pub struct CandleSeries {
    /// The bucket width in seconds; fixed for the series' lifetime.
    pub interval: u64,
    /// The retention cap: at most this many candles are kept.
    pub cap: usize,
    /// The candles, oldest first.
    pub candles: Vec<Candle>,
}

impl CandleSeries {
    /// The series invariant: a positive interval, a positive retention cap,
    /// no more candles than the cap, and a well-formed candle sequence.
    pub open spec fn wf(self) -> bool {
        &&& self.interval > 0
        &&& self.cap >= 1
        &&& self.candles@.len() <= self.cap
        &&& series_candles_wf(self.candles@, self.interval)
    }

    /// An empty series with the default retention cap.
    pub fn new(interval: u64) -> (s: Self)
        requires
            interval > 0,
        ensures
            s.wf(),
            s.interval == interval,
            s.cap == RETENTION_CAP,
            s.candles@ == Seq::<Candle>::empty(),
    {
        CandleSeries { interval, cap: RETENTION_CAP, candles: Vec::new() }
    }

    /// An empty series with an explicit retention cap.
    pub fn with_cap(interval: u64, cap: usize) -> (s: Self)
        requires
            interval > 0,
            cap >= 1,
        ensures
            s.wf(),
            s.interval == interval,
            s.cap == cap,
            s.candles@ == Seq::<Candle>::empty(),
    {
        CandleSeries { interval, cap, candles: Vec::new() }
    }

    /// Drops the oldest candles until no more than the cap remain.
    fn trim(&mut self)
        requires
            old(self).cap >= 1,
        ensures
            final(self).interval == old(self).interval,
            final(self).cap == old(self).cap,
            final(self).candles@ == spec_trim(old(self).candles@, old(self).cap as int),
    {
        let ghost orig = self.candles@;
        proof {
            assert(orig.subrange(0, orig.len() as int) =~= orig);
        }
        while self.candles.len() > self.cap
            invariant
                self.cap == old(self).cap,
                self.interval == old(self).interval,
                self.cap >= 1,
                self.candles@.len() <= orig.len(),
                self.candles@ == orig.subrange(
                    orig.len() - self.candles@.len(),
                    orig.len() as int,
                ),
                orig.len() > self.cap ==> self.candles@.len() >= self.cap,
                orig.len() <= self.cap ==> self.candles@ == orig,
            decreases self.candles@.len(),
        {
            let ghost before = self.candles@;
            self.candles.remove(0);
            proof {
                assert(self.candles@ =~= before.subrange(1, before.len() as int));
                assert(self.candles@ =~= orig.subrange(
                    orig.len() - self.candles@.len(),
                    orig.len() as int,
                ));
            }
        }
        proof {
            if orig.len() > self.cap {
                assert(self.candles@.len() == self.cap);
            }
        }
    }

    /// Applies one tick to the series: the core streaming OHLCV update.
    ///
    /// The new candle sequence is exactly `spec_update` followed by the
    /// retention trim `spec_trim`; the returned outcome reports whether the
    /// tick merged into the last candle, appended a new bucket, or was
    /// rejected as out of order.
    pub fn update(&mut self, price: u64, volume: u64, event_time: u64) -> (o: TickOutcome)
        requires
            old(self).wf(),
        ensures
            final(self).wf(),
            final(self).interval == old(self).interval,
            final(self).cap == old(self).cap,
            final(self).candles@ == spec_trim(
                spec_update(
                    old(self).candles@,
                    old(self).interval,
                    price,
                    volume,
                    event_time,
                ),
                old(self).cap as int,
            ),
            o == spec_outcome(old(self).candles@, old(self).interval, event_time),
    {
        let ghost pre = self.candles@;
        let ghost full = spec_update(pre, self.interval, price, volume, event_time);
        proof {
            lemma_spec_update_wf(pre, self.interval, price, volume, event_time);
            lemma_spec_trim(full, self.interval, self.cap as int);
            lemma_period_start_properties(event_time, self.interval);
        }
        let ps = period_start(event_time, self.interval);
        let n_candles = self.candles.len();
        if n_candles == 0 {
            self.candles.push(Candle::new(price, volume, ps));
            proof {
                assert(self.candles@ =~= full);
                assert(spec_trim(full, self.cap as int) == full);
            }
            TickOutcome::Appended
        } else {
            let last = self.candles[n_candles - 1];
            if last.timestamp == ps {
                let merged = last.merge(price, volume);
                self.candles.pop();
                self.candles.push(merged);
                proof {
                    assert(self.candles@ =~= pre.update(
                        pre.len() - 1,
                        merged_candle(pre.last(), price, volume),
                    ));
                    assert(spec_trim(full, self.cap as int) == full);
                }
                TickOutcome::Merged
            } else if last.timestamp < ps {
                let ghost iv = self.interval as int;
                let ghost f = last.timestamp + iv;
                let ghost n = spec_gap_count(last.timestamp as int, ps as int, iv);
                proof {
                    assert(last.timestamp % self.interval == 0);
                    lemma_gap_geometry(last.timestamp as int, ps as int, iv);
                    lemma_aligned_below(last.timestamp as int, ps as int, iv);
                }
                let last_close = last.close;
                let mut b = last.timestamp + self.interval;
                let ghost mut j: int = 0;
                proof {
                    assert(spec_gap(last_close, f, 0, iv) =~= Seq::<Candle>::empty());
                    assert(self.candles@ =~= pre + spec_gap(last_close, f, 0, iv));
                }
                while b < ps
                    invariant
                        self.interval == old(self).interval,
                        self.cap == old(self).cap,
                        iv == self.interval as int,
                        self.interval > 0,
                        0 <= j <= n,
                        f + n * iv == ps,
                        b == f + j * iv,
                        b <= ps,
                        forall|k: int| 0 <= k < n ==> f + #[trigger] (k * iv) + iv <= ps,
                        self.candles@ == pre + spec_gap(last_close, f, j, iv),
                    decreases ps - b,
                {
                    self.candles.push(Candle::flat(last_close, b));
                    proof {
                        assert(j < n) by {
                            if j == n {
                                assert(b == ps);
                            }
                        }
                        assert(spec_gap(last_close, f, j + 1, iv) =~= spec_gap(
                            last_close,
                            f,
                            j,
                            iv,
                        ).push(synthetic_candle(last_close, b)));
                        assert(self.candles@ == pre + spec_gap(last_close, f, j + 1, iv));
                        assert(f + j * iv + iv <= ps);
                        assert((j + 1) * iv == j * iv + iv) by (nonlinear_arith);
                        j = j + 1;
                    }
                    b = b + self.interval;
                }
                proof {
                    assert(b == ps);
                    assert(j == n) by {
                        assert(f + j * iv == f + n * iv);
                        assert(j * iv == n * iv);
                        assert(j == n) by (nonlinear_arith)
                            requires
                                j * iv == n * iv,
                                iv > 0,
                        ;
                    }
                }
                self.candles.push(Candle::new(price, volume, ps));
                proof {
                    assert(self.candles@ =~= pre + spec_gap(last_close, f, n, iv) + seq![
                        fresh_candle(price, volume, ps),
                    ]);
                    assert(self.candles@ == full);
                }
                self.trim();
                TickOutcome::Appended
            } else {
                proof {
                    assert(full == pre);
                    assert(spec_trim(full, self.cap as int) == pre);
                }
                TickOutcome::Stale
            }
        }
    }

    /// The most recent `count` candles (all of them if fewer exist),
    /// oldest first.
    pub fn latest(&self, count: usize) -> (r: Vec<Candle>)
        ensures
            r@.len() == if count <= self.candles@.len() {
                count as int
            } else {
                self.candles@.len() as int
            },
            r@ == self.candles@.subrange(
                self.candles@.len() - r@.len(),
                self.candles@.len() as int,
            ),
    {
        let len = self.candles.len();
        let start = if count <= len {
            len - count
        } else {
            0
        };
        let mut r: Vec<Candle> = Vec::new();
        let mut i: usize = start;
        proof {
            assert(self.candles@.subrange(start as int, start as int) =~= Seq::<
                Candle,
            >::empty());
        }
        while i < len
            invariant
                start <= i <= len,
                len == self.candles@.len(),
                r@ == self.candles@.subrange(start as int, i as int),
            decreases len - i,
        {
            r.push(self.candles[i]);
            proof {
                assert(self.candles@.subrange(start as int, i + 1) =~= self.candles@.subrange(
                    start as int,
                    i as int,
                ).push(self.candles@[i as int]));
            }
            i = i + 1;
        }
        r
    }

    /// The candles with timestamps in the inclusive range `[from, to]`,
    /// oldest first.
    pub fn in_range(&self, from: u64, to: u64) -> (r: Vec<Candle>)
        ensures
            r@ == spec_range_filter(self.candles@, from, to),
    {
        let len = self.candles.len();
        let mut r: Vec<Candle> = Vec::new();
        let mut i: usize = 0;
        proof {
            assert(self.candles@.subrange(0, 0) =~= Seq::<Candle>::empty());
        }
        while i < len
            invariant
                0 <= i <= len,
                len == self.candles@.len(),
                r@ == spec_range_filter(self.candles@.subrange(0, i as int), from, to),
            decreases len - i,
        {
            let c = self.candles[i];
            proof {
                assert(self.candles@.subrange(0, i + 1).drop_last() =~= self.candles@.subrange(
                    0,
                    i as int,
                ));
                assert(self.candles@.subrange(0, i + 1).last() == self.candles@[i as int]);
            }
            if from <= c.timestamp && c.timestamp <= to {
                r.push(c);
            }
            i = i + 1;
        }
        proof {
            assert(self.candles@.subrange(0, len as int) =~= self.candles@);
        }
        r
    }
}

} // verus!
