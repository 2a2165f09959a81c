//! Tests of the charting-protocol values and transforms.

use candles::candle::Candle;
use candles::chart::{
    chart_response, get_candles, get_config, get_history, get_symbols, symbol_catalog, Indexer,
};
use candles::store::CandleStore;

#[test]
fn indexer_wire_names() {
    assert_eq!(Indexer::Envio.as_str(), "envio");
    assert_eq!(Indexer::Subsquid.as_str(), "subsquid");
    assert_eq!(Indexer::Pangea.as_str(), "superchain");
}

#[test]
fn all_indexers_in_order() {
    let all = Indexer::all();
    assert_eq!(all, vec![Indexer::Envio, Indexer::Subsquid, Indexer::Pangea]);
}

#[test]
fn indexer_from_name_parses_exact_names() {
    assert_eq!(Indexer::from_name("Envio"), Some(Indexer::Envio));
    assert_eq!(Indexer::from_name("Subsquid"), Some(Indexer::Subsquid));
    assert_eq!(Indexer::from_name("Pangea"), Some(Indexer::Pangea));
    assert_eq!(Indexer::from_name("pangea"), None);
    assert_eq!(Indexer::from_name(""), None);
}

#[test]
fn config_is_the_fixed_one() {
    let c = get_config();
    assert!(c.supports_search);
    assert!(!c.supports_group_request);
    assert!(c.supports_marks);
    assert!(c.supports_timescale_marks);
    assert!(c.supports_time);
    assert_eq!(c.exchanges.len(), 2);
    assert_eq!(c.exchanges[0].name, "All Exchanges");
    assert_eq!(c.exchanges[1].value, "CryptoExchange");
    assert_eq!(c.symbols_types.len(), 2);
    assert_eq!(c.symbols_types[1].value, "crypto");
    let res: Vec<&str> = c.supported_resolutions.iter().map(|s| s.as_str()).collect();
    assert_eq!(res, vec!["1", "5", "15", "30", "60", "D", "W", "M"]);
}

#[test]
fn symbol_catalog_has_three_entries() {
    let cat = symbol_catalog();
    assert_eq!(cat.len(), 3);
    assert_eq!(cat[0].symbol, "BTC/USD");
    assert_eq!(cat[0].name, "Bitcoin / US Dollar");
    assert_eq!(cat[1].symbol, "ETH/USD");
    assert_eq!(cat[1].exchange, "CryptoExchange");
    assert_eq!(cat[2].symbol, "AAPL");
    assert_eq!(cat[2].type_, "stock");
    assert_eq!(cat[2].timezone, "America/New_York");
}

#[test]
fn symbols_lookup_and_fallback() {
    assert_eq!(get_symbols(Some("BTC/USD".to_string())).symbol, "BTC/USD");
    assert_eq!(get_symbols(Some("ETH/USD".to_string())).name, "Ethereum / US Dollar");
    assert_eq!(get_symbols(Some("DOGE".to_string())).symbol, "AAPL");
    assert_eq!(get_symbols(None).symbol, "AAPL");
}

#[test]
fn chart_response_of_nothing_is_no_data() {
    let r = chart_response(&Vec::new());
    assert_eq!(r.s, "no_data");
    assert!(r.t.is_empty() && r.o.is_empty() && r.h.is_empty());
    assert!(r.l.is_empty() && r.c.is_empty() && r.v.is_empty());
}

#[test]
fn chart_response_mirrors_candles() {
    let candles = vec![
        Candle { open: 1, high: 5, low: 1, close: 4, volume: 10, timestamp: 0 },
        Candle { open: 4, high: 6, low: 3, close: 3, volume: 20, timestamp: 60 },
    ];
    let r = chart_response(&candles);
    assert_eq!(r.s, "ok");
    assert_eq!(r.t, vec![0, 60]);
    assert_eq!(r.o, vec![1, 4]);
    assert_eq!(r.h, vec![5, 6]);
    assert_eq!(r.l, vec![1, 3]);
    assert_eq!(r.c, vec![4, 3]);
    assert_eq!(r.v, vec![10, 20]);
}

#[test]
fn history_defaults_cover_everything_up_to_now() {
    let store = CandleStore::new();
    store.add_price("", 60, 100, 1, 0);
    store.add_price("", 60, 120, 2, 90);
    // missing symbol -> "", missing resolution -> 60, from -> 0, to -> now
    let r = get_history(&store, None, None, None, None, 10_000);
    assert_eq!(r.s, "ok");
    assert_eq!(r.t, vec![0, 60]);
    assert_eq!(r.o, vec![100, 120]);
    assert_eq!(r.c, vec![100, 120]);
    assert_eq!(r.v, vec![1, 2]);
}

#[test]
fn history_of_unknown_symbol_is_no_data() {
    let store = CandleStore::new();
    let r = get_history(
        &store,
        Some("UNKNOWN".to_string()),
        Some(60),
        Some(0),
        Some(1000),
        5000,
    );
    assert_eq!(r.s, "no_data");
    assert!(r.t.is_empty());
}

#[test]
fn candles_route_filters_by_range() {
    let store = CandleStore::new();
    for k in 0..5u64 {
        store.add_price("S", 60, 100 + k, 1, k * 60);
    }
    let r = get_candles(&store, "S".to_string(), 60, 60, 180);
    assert_eq!(r.s, "ok");
    assert_eq!(r.t, vec![60, 120, 180]);
    assert_eq!(r.o, vec![101, 102, 103]);
}
