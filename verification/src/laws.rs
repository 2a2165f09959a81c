//! Properties of the aggregation across whole tick sequences: ordering,
//! gap-freeness, OHLC bounds, volume additivity and retention.

use vstd::prelude::*;
use crate::bucket::{
    lemma_period_start_monotone, lemma_period_start_properties, spec_period_start,
};
use crate::candle::{candle_wf, Candle};
use crate::series::{
    lemma_series_ascending, lemma_spec_trim, lemma_spec_update_wf, series_candles_wf, spec_gap,
    spec_gap_count, spec_trim, spec_update,
};

verus! {

/// One normalized trade tick: a price, a traded volume, and the event time
/// in integer seconds.
#[derive(Clone, Copy, Debug, PartialEq, Eq, Structural)]
pub struct Tick {
    pub price: u64,
    pub volume: u64,
    pub time: u64,
}

/// The candle sequence that applying `ticks`, oldest first, to an initially
/// empty series of bucket width `interval` produces (before any retention
/// trimming).
pub open spec fn spec_apply_ticks(interval: u64, ticks: Seq<Tick>) -> Seq<Candle>
    decreases ticks.len(),
{
    if ticks.len() == 0 {
        Seq::empty()
    } else {
        spec_update(
            spec_apply_ticks(interval, ticks.drop_last()),
            interval,
            ticks.last().price,
            ticks.last().volume,
            ticks.last().time,
        )
    }
}

/// Ticks arrive in order: event times never decrease.
pub open spec fn ticks_in_order(ticks: Seq<Tick>) -> bool {
    forall|i: int, j: int|
        0 <= i < j < ticks.len() ==> (#[trigger] ticks[i]).time <= (#[trigger] ticks[j]).time
}

/// The sum of the volumes of the ticks whose bucket starts at `b`.
pub open spec fn spec_bucket_volume(ticks: Seq<Tick>, interval: u64, b: u64) -> int
    decreases ticks.len(),
{
    if ticks.len() == 0 {
        0
    } else {
        spec_bucket_volume(ticks.drop_last(), interval, b) + if spec_period_start(
            ticks.last().time,
            interval,
        ) == b {
            ticks.last().volume as int
        } else {
            0
        }
    }
}

/// The sum of all tick volumes.
pub open spec fn spec_total_volume(ticks: Seq<Tick>) -> int
    decreases ticks.len(),
{
    if ticks.len() == 0 {
        0
    } else {
        spec_total_volume(ticks.drop_last()) + ticks.last().volume
    }
}

/// A bucket's volume is non-negative and never exceeds the total volume.
pub proof fn lemma_bucket_le_total(ticks: Seq<Tick>, interval: u64, b: u64)
    ensures
        0 <= spec_bucket_volume(ticks, interval, b) <= spec_total_volume(ticks),
    decreases ticks.len(),
{
    if ticks.len() > 0 {
        lemma_bucket_le_total(ticks.drop_last(), interval, b);
    }
}

/// Dropping the last tick keeps the sequence in order.
proof fn lemma_in_order_drop_last(ticks: Seq<Tick>)
    requires
        ticks_in_order(ticks),
        ticks.len() > 0,
    ensures
        ticks_in_order(ticks.drop_last()),
{
    let prev = ticks.drop_last();
    assert forall|i: int, j: int| 0 <= i < j < prev.len() implies (#[trigger] prev[i]).time <= (
    #[trigger] prev[j]).time by {
        assert(prev[i] == ticks[i] && prev[j] == ticks[j]);
    }
}

/// After any sequence of ticks — in order or not — the aggregated series is
/// well formed: every candle's high and low bound its open and close, every
/// timestamp is bucket-aligned, and consecutive candles are exactly one
/// interval apart.
pub proof fn lemma_apply_ticks_wf(interval: u64, ticks: Seq<Tick>)
    requires
        interval > 0,
    ensures
        series_candles_wf(spec_apply_ticks(interval, ticks), interval),
    decreases ticks.len(),
{
    if ticks.len() > 0 {
        lemma_apply_ticks_wf(interval, ticks.drop_last());
        lemma_spec_update_wf(
            spec_apply_ticks(interval, ticks.drop_last()),
            interval,
            ticks.last().price,
            ticks.last().volume,
            ticks.last().time,
        );
    }
}

/// The combined induction behind volume additivity: for in-order ticks whose
/// total volume fits in `u64`, the aggregation never rejects a tick, the
/// last candle sits at the last tick's bucket, every candle's volume is
/// exactly the summed volume of the ticks of its bucket, and buckets beyond
/// the last candle have seen no volume at all.
pub proof fn lemma_apply_ticks_volumes(interval: u64, ticks: Seq<Tick>)
    requires
        interval > 0,
        ticks_in_order(ticks),
        spec_total_volume(ticks) <= u64::MAX,
    ensures
        series_candles_wf(spec_apply_ticks(interval, ticks), interval),
        ticks.len() == 0 <==> spec_apply_ticks(interval, ticks).len() == 0,
        ticks.len() > 0 ==> spec_apply_ticks(interval, ticks).last().timestamp
            == spec_period_start(ticks.last().time, interval),
        forall|i: int|
            0 <= i < spec_apply_ticks(interval, ticks).len() ==> (#[trigger] spec_apply_ticks(
                interval,
                ticks,
            )[i]).volume == spec_bucket_volume(
                ticks,
                interval,
                spec_apply_ticks(interval, ticks)[i].timestamp,
            ),
        forall|b: u64|
            spec_apply_ticks(interval, ticks).len() > 0 && b > spec_apply_ticks(
                interval,
                ticks,
            ).last().timestamp ==> #[trigger] spec_bucket_volume(ticks, interval, b) == 0,
    decreases ticks.len(),
{
    lemma_apply_ticks_wf(interval, ticks);
    if ticks.len() == 0 {
    } else {
        let res = spec_apply_ticks(interval, ticks);
        let drop = ticks.drop_last();
        let tk = ticks.last();
        let prev = spec_apply_ticks(interval, drop);
        let ps = spec_period_start(tk.time, interval);
        lemma_in_order_drop_last(ticks);
        assert(spec_total_volume(drop) <= u64::MAX);
        lemma_apply_ticks_volumes(interval, drop);
        lemma_period_start_properties(tk.time, interval);
        lemma_spec_update_wf(prev, interval, tk.price, tk.volume, tk.time);
        assert(res == spec_update(prev, interval, tk.price, tk.volume, tk.time));
        if prev.len() == 0 {
            assert(res =~= seq![
                crate::candle::fresh_candle(tk.price, tk.volume, ps as u64),
            ]);
            assert forall|i: int| 0 <= i < res.len() implies (#[trigger] res[i]).volume
                == spec_bucket_volume(ticks, interval, res[i].timestamp) by {
                assert(res[i] == res[0]);
                assert(res[0].volume == tk.volume);
                assert(spec_bucket_volume(drop, interval, ps as u64) == 0);
                assert(spec_bucket_volume(ticks, interval, ps as u64) == tk.volume);
            }
            assert forall|b: u64| res.len() > 0 && b > res.last().timestamp implies #[trigger]
            spec_bucket_volume(ticks, interval, b) == 0 by {
                assert(res.last().timestamp == ps as u64);
                assert(spec_bucket_volume(drop, interval, b) == 0);
            }
        } else {
            // an in-order tick is never stale: its bucket is at least the last one
            let prev_tk = drop.last();
            assert(prev_tk == ticks[ticks.len() - 2] && tk == ticks[ticks.len() - 1]);
            assert(prev_tk.time <= tk.time);
            lemma_period_start_monotone(prev_tk.time, tk.time, interval);
            assert(prev.last().timestamp <= ps);
            if prev.last().timestamp == ps {
                // the last candle absorbs the tick
                let m = crate::candle::merged_candle(prev.last(), tk.price, tk.volume);
                assert(res == prev.update(prev.len() - 1, m));
                lemma_bucket_le_total(drop, interval, ps as u64);
                assert(spec_bucket_volume(ticks, interval, ps as u64) == spec_bucket_volume(
                    drop,
                    interval,
                    ps as u64,
                ) + tk.volume);
                lemma_bucket_le_total(ticks, interval, ps as u64);
                assert(prev.last().volume == spec_bucket_volume(drop, interval, ps as u64));
                assert(prev.last().volume + tk.volume <= u64::MAX) by {
                    assert(spec_total_volume(ticks) <= u64::MAX);
                }
                assert forall|i: int| 0 <= i < res.len() implies (#[trigger] res[i]).volume
                    == spec_bucket_volume(ticks, interval, res[i].timestamp) by {
                    if i == prev.len() - 1 {
                        assert(res[i] == m);
                        assert(m.volume == prev.last().volume + tk.volume);
                    } else {
                        assert(res[i] == prev[i]);
                        lemma_series_ascending(prev, interval, i, prev.len() - 1);
                        assert(prev[i].timestamp < ps);
                        assert(spec_bucket_volume(ticks, interval, prev[i].timestamp)
                            == spec_bucket_volume(drop, interval, prev[i].timestamp));
                    }
                }
                assert forall|b: u64| res.len() > 0 && b > res.last().timestamp implies #[trigger]
                spec_bucket_volume(ticks, interval, b) == 0 by {
                    assert(res.last() == m);
                    assert(spec_bucket_volume(ticks, interval, b) == spec_bucket_volume(
                        drop,
                        interval,
                        b,
                    ));
                    assert(b > prev.last().timestamp);
                }
            } else {
                // a strictly newer bucket: gap-fill, then a fresh candle
                let last_ts = prev.last().timestamp as int;
                let iv = interval as int;
                let n = spec_gap_count(last_ts, ps, iv);
                let f = last_ts + iv;
                crate::series::lemma_gap_geometry(last_ts, ps, iv);
                let gap = spec_gap(prev.last().close, f, n, iv);
                let single = seq![
                    crate::candle::fresh_candle(tk.price, tk.volume, ps as u64),
                ];
                assert(res == prev + gap + single);
                assert forall|i: int| 0 <= i < res.len() implies (#[trigger] res[i]).volume
                    == spec_bucket_volume(ticks, interval, res[i].timestamp) by {
                    if i < prev.len() {
                        assert(res[i] == prev[i]);
                        if i < prev.len() - 1 {
                            lemma_series_ascending(prev, interval, i, prev.len() - 1);
                        }
                        assert(prev[i].timestamp <= prev.last().timestamp < ps);
                        assert(spec_bucket_volume(ticks, interval, prev[i].timestamp)
                            == spec_bucket_volume(drop, interval, prev[i].timestamp));
                    } else if i < prev.len() + n {
                        let k = i - prev.len();
                        assert(res[i] == gap[k]);
                        assert(gap[k] == crate::candle::synthetic_candle(
                            prev.last().close,
                            (f + k * iv) as u64,
                        ));
                        assert(f + k * iv + iv <= ps && 0 <= k * iv);
                        let ts = (f + k * iv) as u64;
                        assert(ts > prev.last().timestamp && ts < ps);
                        assert(spec_bucket_volume(drop, interval, ts) == 0);
                        assert(spec_bucket_volume(ticks, interval, ts) == 0);
                        assert(res[i].volume == 0);
                    } else {
                        assert(res[i] == single[0]);
                        assert(res[i].timestamp == ps as u64);
                        assert((ps as u64) > prev.last().timestamp);
                        assert(spec_bucket_volume(drop, interval, ps as u64) == 0);
                        assert(spec_bucket_volume(ticks, interval, ps as u64) == tk.volume);
                    }
                }
                assert(res.last() == single[0]);
                assert forall|b: u64| res.len() > 0 && b > res.last().timestamp implies #[trigger]
                spec_bucket_volume(ticks, interval, b) == 0 by {
                    assert(b > ps as u64);
                    assert(b > prev.last().timestamp);
                    assert(spec_bucket_volume(ticks, interval, b) == spec_bucket_volume(
                        drop,
                        interval,
                        b,
                    ));
                }
            }
        }
    }
}

/// Ascending/spacing law: after any sequence of ticks, consecutive candles
/// in the aggregated series are exactly `interval` seconds apart.
pub proof fn lemma_ticks_spacing(interval: u64, ticks: Seq<Tick>)
    requires
        interval > 0,
    ensures
        forall|i: int|
            1 <= i < spec_apply_ticks(interval, ticks).len() ==> (#[trigger] spec_apply_ticks(
                interval,
                ticks,
            )[i]).timestamp == spec_apply_ticks(interval, ticks)[i - 1].timestamp + interval,
{
    lemma_apply_ticks_wf(interval, ticks);
}

/// OHLC bound law: after any sequence of ticks, every candle in the
/// aggregated series has `high >= max(open, close)` and
/// `low <= min(open, close)`.
pub proof fn lemma_ticks_ohlc_bounds(interval: u64, ticks: Seq<Tick>)
    requires
        interval > 0,
    ensures
        forall|i: int|
            0 <= i < spec_apply_ticks(interval, ticks).len() ==> candle_wf(
                #[trigger] spec_apply_ticks(interval, ticks)[i],
            ),
{
    lemma_apply_ticks_wf(interval, ticks);
}

/// Volume additivity law: for in-order ticks whose total volume fits in
/// `u64`, every candle's volume is exactly the sum of the volumes of the
/// ticks whose bucket is the candle's timestamp (so a gap-filled candle,
/// whose bucket saw no tick, carries zero volume).
pub proof fn lemma_volume_additivity(interval: u64, ticks: Seq<Tick>)
    requires
        interval > 0,
        ticks_in_order(ticks),
        spec_total_volume(ticks) <= u64::MAX,
    ensures
        forall|i: int|
            0 <= i < spec_apply_ticks(interval, ticks).len() ==> (#[trigger] spec_apply_ticks(
                interval,
                ticks,
            )[i]).volume == spec_bucket_volume(
                ticks,
                interval,
                spec_apply_ticks(interval, ticks)[i].timestamp,
            ),
{
    lemma_apply_ticks_volumes(interval, ticks);
}

/// Retention law: trimming keeps at most `cap` candles, keeps exactly the
/// most recent ones (every dropped candle is strictly older than every kept
/// one), and keeps them in their original order.
pub proof fn lemma_retention_bound(s: Seq<Candle>, interval: u64, cap: int)
    requires
        interval > 0,
        cap >= 1,
        series_candles_wf(s, interval),
    ensures
        spec_trim(s, cap).len() <= cap,
        spec_trim(s, cap).len() == if s.len() <= cap {
            s.len() as int
        } else {
            cap
        },
        forall|j: int|
            0 <= j < spec_trim(s, cap).len() ==> #[trigger] spec_trim(s, cap)[j] == s[s.len()
                - spec_trim(s, cap).len() + j],
        forall|i: int, j: int|
            0 <= i < s.len() - cap && s.len() - cap <= j < s.len() ==> (#[trigger] s[i]).timestamp
                < (#[trigger] s[j]).timestamp,
{
    lemma_spec_trim(s, interval, cap);
}

} // verus!
