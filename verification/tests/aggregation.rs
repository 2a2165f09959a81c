//! Tests of the bucketing function and the per-series aggregation.

use candles::bucket::period_start;
use candles::candle::Candle;
use candles::series::{CandleSeries, TickOutcome, RETENTION_CAP};

#[test]
fn bucket_start_examples() {
    assert_eq!(period_start(0, 60), 0);
    assert_eq!(period_start(59, 60), 0);
    assert_eq!(period_start(60, 60), 60);
    assert_eq!(period_start(185, 60), 180);
    assert_eq!(period_start(1724996333, 86400), 1724996333 - (1724996333 % 86400));
}

#[test]
fn bucket_start_bounds_and_alignment() {
    for t in [0u64, 1, 59, 60, 61, 3599, 3600, 1_000_000_007] {
        for iv in [60u64, 180, 300, 900, 3600, 86400, 604800] {
            let ps = period_start(t, iv);
            assert_eq!(ps % iv, 0);
            assert!(ps <= t);
            assert!(t < ps + iv);
        }
    }
}

#[test]
fn first_tick_opens_a_candle() {
    let mut s = CandleSeries::new(60);
    let o = s.update(100, 5, 30);
    assert_eq!(o, TickOutcome::Appended);
    assert_eq!(s.candles.len(), 1);
    let c = &s.candles[0];
    assert_eq!(c.open, 100);
    assert_eq!(c.high, 100);
    assert_eq!(c.low, 100);
    assert_eq!(c.close, 100);
    assert_eq!(c.volume, 5);
    assert_eq!(c.timestamp, 0);
}

#[test]
fn single_bucket_merge() {
    // interval 60: two ticks of the same bucket merge into one candle
    let mut s = CandleSeries::new(60);
    assert_eq!(s.update(100, 1, 0), TickOutcome::Appended);
    assert_eq!(s.update(110, 2, 30), TickOutcome::Merged);
    assert_eq!(s.candles.len(), 1);
    let c = &s.candles[0];
    assert_eq!(c.open, 100);
    assert_eq!(c.high, 110);
    assert_eq!(c.low, 100);
    assert_eq!(c.close, 110);
    assert_eq!(c.volume, 3);
    assert_eq!(c.timestamp, 0);
}

#[test]
fn merge_widens_low_and_moves_close() {
    let mut s = CandleSeries::new(60);
    s.update(100, 1, 0);
    s.update(90, 1, 10);
    s.update(95, 1, 20);
    let c = &s.candles[0];
    assert_eq!(c.open, 100);
    assert_eq!(c.high, 100);
    assert_eq!(c.low, 90);
    assert_eq!(c.close, 95);
    assert_eq!(c.volume, 3);
}

#[test]
fn gap_fill() {
    // interval 60: a tick at t=185 after one at t=0 fills t=60 and t=120
    let mut s = CandleSeries::new(60);
    assert_eq!(s.update(100, 1, 0), TickOutcome::Appended);
    assert_eq!(s.update(120, 1, 185), TickOutcome::Appended);
    assert_eq!(s.candles.len(), 4);

    let c0 = &s.candles[0];
    assert_eq!(c0.timestamp, 0);
    assert_eq!(c0.close, 100);
    assert_eq!(c0.volume, 1);

    for (k, ts) in [(1usize, 60u64), (2, 120)] {
        let c = &s.candles[k];
        assert_eq!(c.timestamp, ts);
        assert_eq!(c.open, 100);
        assert_eq!(c.high, 100);
        assert_eq!(c.low, 100);
        assert_eq!(c.close, 100);
        assert_eq!(c.volume, 0);
    }

    let c3 = &s.candles[3];
    assert_eq!(c3.timestamp, 180);
    assert_eq!(c3.open, 120);
    assert_eq!(c3.high, 120);
    assert_eq!(c3.low, 120);
    assert_eq!(c3.close, 120);
    assert_eq!(c3.volume, 1);
}

#[test]
fn out_of_order_tick_is_rejected() {
    let mut s = CandleSeries::new(60);
    s.update(100, 1, 120);
    let before: Vec<Candle> = s.candles.clone();
    let o = s.update(50, 5, 30);
    assert_eq!(o, TickOutcome::Stale);
    assert_eq!(s.candles.len(), before.len());
    assert_eq!(s.candles[0], before[0]);
}

#[test]
fn spacing_after_many_ticks() {
    let mut s = CandleSeries::new(300);
    let times = [0u64, 10, 600, 601, 2000, 2001, 9000];
    for (k, t) in times.iter().enumerate() {
        s.update(100 + k as u64, 1, *t);
    }
    for w in s.candles.windows(2) {
        assert_eq!(w[1].timestamp, w[0].timestamp + 300);
    }
}

#[test]
fn ohlc_bounds_hold_for_every_candle() {
    let mut s = CandleSeries::new(60);
    let ticks = [
        (100u64, 1u64, 0u64),
        (150, 2, 10),
        (80, 1, 20),
        (120, 3, 70),
        (90, 1, 300),
        (95, 2, 301),
    ];
    for (p, v, t) in ticks {
        s.update(p, v, t);
    }
    for c in &s.candles {
        assert!(c.high >= c.open && c.high >= c.close);
        assert!(c.low <= c.open && c.low <= c.close);
    }
}

#[test]
fn volume_adds_up_per_bucket() {
    let mut s = CandleSeries::new(60);
    s.update(10, 7, 0);
    s.update(11, 3, 59);
    s.update(12, 5, 60);
    s.update(13, 2, 61);
    assert_eq!(s.candles.len(), 2);
    assert_eq!(s.candles[0].volume, 10);
    assert_eq!(s.candles[1].volume, 7);
}

#[test]
fn volume_saturates_instead_of_wrapping() {
    let mut s = CandleSeries::new(60);
    s.update(10, u64::MAX, 0);
    s.update(10, 5, 30);
    assert_eq!(s.candles[0].volume, u64::MAX);
}

#[test]
fn retention_cap_drops_oldest_first() {
    let mut s = CandleSeries::with_cap(60, 3);
    for k in 0..5u64 {
        s.update(100 + k, 1, k * 60);
    }
    assert_eq!(s.candles.len(), 3);
    assert_eq!(s.candles[0].timestamp, 120);
    assert_eq!(s.candles[1].timestamp, 180);
    assert_eq!(s.candles[2].timestamp, 240);
}

#[test]
fn retention_default_cap_bounds_gap_fill() {
    let mut s = CandleSeries::new(60);
    s.update(100, 1, 0);
    s.update(200, 1, 1500 * 60);
    assert_eq!(s.candles.len(), RETENTION_CAP);
    assert_eq!(s.candles[0].timestamp, 501 * 60);
    assert_eq!(s.candles[RETENTION_CAP - 1].timestamp, 1500 * 60);
    assert_eq!(s.candles[RETENTION_CAP - 1].volume, 1);
    assert_eq!(s.candles[0].volume, 0);
    assert_eq!(s.candles[0].close, 100);
}

#[test]
fn latest_returns_most_recent_window_ascending() {
    let mut s = CandleSeries::new(60);
    for k in 0..5u64 {
        s.update(100 + k, 1, k * 60);
    }
    let last_two = s.latest(2);
    assert_eq!(last_two.len(), 2);
    assert_eq!(last_two[0].timestamp, 180);
    assert_eq!(last_two[1].timestamp, 240);

    let none = s.latest(0);
    assert!(none.is_empty());

    let all = s.latest(100);
    assert_eq!(all.len(), 5);
    assert_eq!(all[0].timestamp, 0);
}

#[test]
fn in_range_is_inclusive_on_both_bounds() {
    let mut s = CandleSeries::new(60);
    for k in 0..5u64 {
        s.update(100 + k, 1, k * 60);
    }
    let r = s.in_range(60, 180);
    assert_eq!(r.len(), 3);
    assert_eq!(r[0].timestamp, 60);
    assert_eq!(r[2].timestamp, 180);

    let empty = s.in_range(241, 10_000);
    assert!(empty.is_empty());
}
