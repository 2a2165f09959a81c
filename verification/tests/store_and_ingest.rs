//! Tests of the shared store, the fan-out, and the event handling.

use candles::ingest::{
    handle_order_event, supported_intervals, IngestOutcome, PangeaOrderEvent, GENESIS_TIMESTAMP,
};
use candles::store::CandleStore;

fn trade_event(block_number: i64, price: Option<u128>, amount: Option<u128>) -> PangeaOrderEvent {
    PangeaOrderEvent {
        chain: 1,
        block_number,
        block_hash: "0xabc".to_string(),
        transaction_hash: "0xdef".to_string(),
        transaction_index: 0,
        log_index: 0,
        market_id: "m".to_string(),
        order_id: "o".to_string(),
        event_type: Some("Trade".to_string()),
        asset: None,
        amount,
        asset_type: None,
        order_type: None,
        price,
        user: None,
        order_matcher: None,
        owner: None,
        limit_type: None,
    }
}

#[test]
fn empty_query_yields_empty_result() {
    // an unknown symbol is not an error: the range query returns nothing
    let store = CandleStore::new();
    let r = store.get_candles_in_time_range_secs("UNKNOWN", 60, 0, 1000);
    assert!(r.is_empty());
    let r2 = store.get_candles("UNKNOWN", 60, 10);
    assert!(r2.is_empty());
}

#[test]
fn add_price_creates_and_updates_series() {
    let store = CandleStore::new();
    store.add_price("ETH-USDC", 60, 100, 1, 0);
    store.add_price("ETH-USDC", 60, 110, 2, 30);
    let r = store.get_candles("ETH-USDC", 60, 10);
    assert_eq!(r.len(), 1);
    assert_eq!(r[0].open, 100);
    assert_eq!(r[0].high, 110);
    assert_eq!(r[0].close, 110);
    assert_eq!(r[0].volume, 3);
}

#[test]
fn series_are_independent_per_symbol_and_interval() {
    let store = CandleStore::new();
    store.add_price("A", 60, 100, 1, 0);
    store.add_price("B", 60, 200, 1, 0);
    store.add_price("A", 300, 300, 1, 0);
    assert_eq!(store.get_candles("A", 60, 10)[0].open, 100);
    assert_eq!(store.get_candles("B", 60, 10)[0].open, 200);
    assert_eq!(store.get_candles("A", 300, 10)[0].open, 300);
}

#[test]
fn get_candles_returns_most_recent_ascending() {
    let store = CandleStore::new();
    for k in 0..5u64 {
        store.add_price("S", 60, 100 + k, 1, k * 60);
    }
    let r = store.get_candles("S", 60, 2);
    assert_eq!(r.len(), 2);
    assert_eq!(r[0].timestamp, 180);
    assert_eq!(r[1].timestamp, 240);
    assert!(store.get_candles("S", 60, 0).is_empty());
}

#[test]
fn range_queries_filter_inclusively() {
    let store = CandleStore::new();
    for k in 0..5u64 {
        store.add_price("S", 60, 100 + k, 1, k * 60);
    }
    let r = store.get_candles_in_time_range_secs("S", 60, 60, 180);
    assert_eq!(r.len(), 3);
    assert_eq!(r[0].timestamp, 60);
    assert_eq!(r[2].timestamp, 180);
    // the millisecond-named query compares in seconds, exactly like the other
    let m = store.get_candles_in_time_range_mils("S", 60, 60, 180);
    assert_eq!(m.len(), 3);
    assert_eq!(m[0].timestamp, 60);
    assert_eq!(m[2].timestamp, 180);
}

#[test]
fn min_max_timestamps_span_all_series() {
    let store = CandleStore::new();
    assert_eq!(store.get_min_max_timestamps(), None);
    store.add_price("A", 60, 100, 1, 600);
    store.add_price("B", 300, 100, 1, 3000);
    store.add_price("A", 60, 100, 1, 660);
    let (mn, mx) = store.get_min_max_timestamps().unwrap();
    assert_eq!(mn, 600);
    assert_eq!(mx, 3000);
}

#[test]
fn fan_out_updates_all_supported_intervals() {
    let store = CandleStore::new();
    store.ingest("ETH-USDC", 100, 2, 1_000_000);
    for iv in supported_intervals() {
        let r = store.get_candles("ETH-USDC", iv, 10);
        assert_eq!(r.len(), 1, "interval {iv}");
        assert_eq!(r[0].open, 100);
        assert_eq!(r[0].volume, 2);
        assert_eq!(r[0].timestamp, 1_000_000 - 1_000_000 % iv);
    }
}

#[test]
fn fan_out_independence() {
    // corrupting the one-minute series leaves the one-hour series intact
    let store = CandleStore::new();
    store.ingest("ETH-USDC", 100, 2, 1_000_000);
    let hour_before = store.get_candles("ETH-USDC", 3600, 10);

    // hammer the one-minute series alone
    store.add_price("ETH-USDC", 60, 999, 77, 2_000_000);
    store.add_price("ETH-USDC", 60, 1, 1, 2_000_060);

    let hour_after = store.get_candles("ETH-USDC", 3600, 10);
    assert_eq!(hour_before.len(), hour_after.len());
    for (a, b) in hour_before.iter().zip(hour_after.iter()) {
        assert_eq!(a, b);
    }
    // and the one-minute series did change
    assert_ne!(store.get_candles("ETH-USDC", 60, 1)[0].close, 100);
}

#[test]
fn trade_event_is_applied_with_genesis_offset_time() {
    let store = CandleStore::new();
    let o = handle_order_event(&store, trade_event(100, Some(42), Some(3)));
    assert_eq!(o, IngestOutcome::Applied);
    let expected_time = GENESIS_TIMESTAMP + 100;
    for iv in supported_intervals() {
        let r = store.get_candles("ETH-USDC", iv, 10);
        assert_eq!(r.len(), 1);
        assert_eq!(r[0].open, 42);
        assert_eq!(r[0].volume, 3);
        assert_eq!(r[0].timestamp, expected_time - expected_time % iv);
    }
}

#[test]
fn incomplete_trade_event_is_dropped() {
    let store = CandleStore::new();
    assert_eq!(
        handle_order_event(&store, trade_event(100, None, Some(3))),
        IngestOutcome::Incomplete
    );
    assert_eq!(
        handle_order_event(&store, trade_event(100, Some(42), None)),
        IngestOutcome::Incomplete
    );
    assert_eq!(store.get_min_max_timestamps(), None);
}

#[test]
fn non_trade_and_untyped_events_are_ignored() {
    let store = CandleStore::new();
    let mut e = trade_event(100, Some(42), Some(3));
    e.event_type = Some("Open".to_string());
    assert_eq!(handle_order_event(&store, e), IngestOutcome::NotTrade);

    let mut e2 = trade_event(100, Some(42), Some(3));
    e2.event_type = None;
    assert_eq!(handle_order_event(&store, e2), IngestOutcome::MissingType);
    assert_eq!(store.get_min_max_timestamps(), None);
}

#[test]
fn pre_genesis_block_is_rejected() {
    let store = CandleStore::new();
    let o = handle_order_event(&store, trade_event(i64::MIN, Some(42), Some(3)));
    assert_eq!(o, IngestOutcome::InvalidTime);
    assert_eq!(store.get_min_max_timestamps(), None);

    // a block slightly before genesis still yields a non-negative time
    let o2 = handle_order_event(&store, trade_event(-100, Some(42), Some(3)));
    assert_eq!(o2, IngestOutcome::Applied);
    let (mn, _) = store.get_min_max_timestamps().unwrap();
    let t = GENESIS_TIMESTAMP - 100;
    assert_eq!(mn, t - t % 604800);
}

#[test]
fn oversized_quantities_are_clamped() {
    let store = CandleStore::new();
    let o = handle_order_event(&store, trade_event(0, Some(u128::MAX), Some(7)));
    assert_eq!(o, IngestOutcome::Applied);
    let r = store.get_candles("ETH-USDC", 60, 1);
    assert_eq!(r[0].open, u64::MAX);
    assert_eq!(r[0].volume, 7);
}
