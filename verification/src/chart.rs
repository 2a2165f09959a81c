//! Pure charting-protocol values and transforms: the symbol catalog, the
//! chart configuration, and the decomposition of a candle sequence into the
//! parallel-array response a charting client expects.

use vstd::prelude::*;
use crate::candle::Candle;
use crate::store::CandleStore;

verus! {

/// The upstream indexers this deployment knows of.
#[derive(Clone, Copy, Debug, PartialEq, Eq, Structural)]
pub enum Indexer {
    Envio,
    Subsquid,
    Pangea,
}

impl Indexer {
    /// The wire name of the indexer.
    pub fn as_str(&self) -> (r: &'static str)
        ensures
            *self is Envio ==> r@ == "envio"@,
            *self is Subsquid ==> r@ == "subsquid"@,
            *self is Pangea ==> r@ == "superchain"@,
    {
        match self {
            Indexer::Envio => "envio",
            Indexer::Subsquid => "subsquid",
            Indexer::Pangea => "superchain",
        }
    }

    /// Every known indexer.
    pub fn all() -> (r: Vec<Indexer>)
        ensures
            r@ == seq![Indexer::Envio, Indexer::Subsquid, Indexer::Pangea],
    {
        let mut v: Vec<Indexer> = Vec::new();
        v.push(Indexer::Envio);
        v.push(Indexer::Subsquid);
        v.push(Indexer::Pangea);
        proof {
            assert(v@ =~= seq![Indexer::Envio, Indexer::Subsquid, Indexer::Pangea]);
        }
        v
    }

    /// Parses a route parameter into an indexer; the names are the enum's
    /// own, not the wire names `as_str` produces.
    pub fn from_name(param: &str) -> (r: Option<Indexer>)
        ensures
            r == if param@ == "Envio"@ {
                Some(Indexer::Envio)
            } else if param@ == "Subsquid"@ {
                Some(Indexer::Subsquid)
            } else if param@ == "Pangea"@ {
                Some(Indexer::Pangea)
            } else {
                None::<Indexer>
            },
    {
        let p: String = param.to_owned();
        if p == "Envio".to_owned() {
            Some(Indexer::Envio)
        } else if p == "Subsquid".to_owned() {
            Some(Indexer::Subsquid)
        } else if p == "Pangea".to_owned() {
            Some(Indexer::Pangea)
        } else {
            None
        }
    }
}

/// One tradable symbol as the charting client's symbol-info request
/// describes it.
pub struct SymbolInfo {
    pub symbol: String,
    pub ticker: String,
    pub name: String,
    pub description: String,
    pub type_: String,
    pub exchange: String,
    pub timezone: String,
    pub minmov: u32,
    pub pricescale: u32,
    pub session: String,
    pub has_intraday: bool,
    pub has_daily: bool,
    pub supported_resolutions: Vec<String>,
    pub intraday_multipliers: Vec<String>,
    pub format: String,
}

/// The resolution labels every symbol supports.
pub open spec fn spec_is_resolution_list(v: Seq<String>) -> bool {
    &&& v.len() == 8
    &&& v[0]@ == "1"@
    &&& v[1]@ == "5"@
    &&& v[2]@ == "15"@
    &&& v[3]@ == "30"@
    &&& v[4]@ == "60"@
    &&& v[5]@ == "D"@
    &&& v[6]@ == "W"@
    &&& v[7]@ == "M"@
}

/// The intraday multipliers every symbol supports.
pub open spec fn spec_is_intraday_list(v: Seq<String>) -> bool {
    &&& v.len() == 5
    &&& v[0]@ == "1"@
    &&& v[1]@ == "5"@
    &&& v[2]@ == "15"@
    &&& v[3]@ == "30"@
    &&& v[4]@ == "60"@
}

/// The fields shared by every catalog entry.
pub open spec fn spec_common_info(s: SymbolInfo) -> bool {
    &&& s.minmov == 1
    &&& s.pricescale == 100
    &&& s.has_intraday
    &&& s.has_daily
    &&& spec_is_resolution_list(s.supported_resolutions@)
    &&& spec_is_intraday_list(s.intraday_multipliers@)
    &&& s.format@ == "price"@
}

/// The catalog entry for Bitcoin against the US dollar.
pub open spec fn spec_is_btc_info(s: SymbolInfo) -> bool {
    &&& s.symbol@ == "BTC/USD"@
    &&& s.ticker@ == "BTC/USD"@
    &&& s.name@ == "Bitcoin / US Dollar"@
    &&& s.description@ == "BTC to USD"@
    &&& s.type_@ == "crypto"@
    &&& s.exchange@ == "CryptoExchange"@
    &&& s.timezone@ == "Etc/UTC"@
    &&& s.session@ == "24x7"@
    &&& spec_common_info(s)
}

/// The catalog entry for Ethereum against the US dollar.
pub open spec fn spec_is_eth_info(s: SymbolInfo) -> bool {
    &&& s.symbol@ == "ETH/USD"@
    &&& s.ticker@ == "ETH/USD"@
    &&& s.name@ == "Ethereum / US Dollar"@
    &&& s.description@ == "ETH to USD"@
    &&& s.type_@ == "crypto"@
    &&& s.exchange@ == "CryptoExchange"@
    &&& s.timezone@ == "Etc/UTC"@
    &&& s.session@ == "24x7"@
    &&& spec_common_info(s)
}

/// The catalog entry for the Apple stock, also the fallback for unknown
/// symbols.
pub open spec fn spec_is_aapl_info(s: SymbolInfo) -> bool {
    &&& s.symbol@ == "AAPL"@
    &&& s.ticker@ == "AAPL"@
    &&& s.name@ == "Apple Inc."@
    &&& s.description@ == "Apple Stock"@
    &&& s.type_@ == "stock"@
    &&& s.exchange@ == "NASDAQ"@
    &&& s.timezone@ == "America/New_York"@
    &&& s.session@ == "0930-1600"@
    &&& spec_common_info(s)
}

/// Builds the resolution label list.
fn resolution_list() -> (v: Vec<String>)
    ensures
        spec_is_resolution_list(v@),
{
    let mut v: Vec<String> = Vec::new();
    v.push("1".to_owned());
    v.push("5".to_owned());
    v.push("15".to_owned());
    v.push("30".to_owned());
    v.push("60".to_owned());
    v.push("D".to_owned());
    v.push("W".to_owned());
    v.push("M".to_owned());
    v
}

/// Builds the intraday multiplier list.
fn intraday_list() -> (v: Vec<String>)
    ensures
        spec_is_intraday_list(v@),
{
    let mut v: Vec<String> = Vec::new();
    v.push("1".to_owned());
    v.push("5".to_owned());
    v.push("15".to_owned());
    v.push("30".to_owned());
    v.push("60".to_owned());
    v
}

/// Builds the Bitcoin catalog entry.
pub fn btc_symbol_info() -> (s: SymbolInfo)
    ensures
        spec_is_btc_info(s),
{
    SymbolInfo {
        symbol: "BTC/USD".to_owned(),
        ticker: "BTC/USD".to_owned(),
        name: "Bitcoin / US Dollar".to_owned(),
        description: "BTC to USD".to_owned(),
        type_: "crypto".to_owned(),
        exchange: "CryptoExchange".to_owned(),
        timezone: "Etc/UTC".to_owned(),
        minmov: 1,
        pricescale: 100,
        session: "24x7".to_owned(),
        has_intraday: true,
        has_daily: true,
        supported_resolutions: resolution_list(),
        intraday_multipliers: intraday_list(),
        format: "price".to_owned(),
    }
}

/// Builds the Ethereum catalog entry.
pub fn eth_symbol_info() -> (s: SymbolInfo)
    ensures
        spec_is_eth_info(s),
{
    SymbolInfo {
        symbol: "ETH/USD".to_owned(),
        ticker: "ETH/USD".to_owned(),
        name: "Ethereum / US Dollar".to_owned(),
        description: "ETH to USD".to_owned(),
        type_: "crypto".to_owned(),
        exchange: "CryptoExchange".to_owned(),
        timezone: "Etc/UTC".to_owned(),
        minmov: 1,
        pricescale: 100,
        session: "24x7".to_owned(),
        has_intraday: true,
        has_daily: true,
        supported_resolutions: resolution_list(),
        intraday_multipliers: intraday_list(),
        format: "price".to_owned(),
    }
}

/// Builds the Apple catalog entry.
pub fn aapl_symbol_info() -> (s: SymbolInfo)
    ensures
        spec_is_aapl_info(s),
{
    SymbolInfo {
        symbol: "AAPL".to_owned(),
        ticker: "AAPL".to_owned(),
        name: "Apple Inc.".to_owned(),
        description: "Apple Stock".to_owned(),
        type_: "stock".to_owned(),
        exchange: "NASDAQ".to_owned(),
        timezone: "America/New_York".to_owned(),
        minmov: 1,
        pricescale: 100,
        session: "0930-1600".to_owned(),
        has_intraday: true,
        has_daily: true,
        supported_resolutions: resolution_list(),
        intraday_multipliers: intraday_list(),
        format: "price".to_owned(),
    }
}

/// The full symbol catalog, in its fixed order.
pub fn symbol_catalog() -> (r: Vec<SymbolInfo>)
    ensures
        r@.len() == 3,
        spec_is_btc_info(r@[0]),
        spec_is_eth_info(r@[1]),
        spec_is_aapl_info(r@[2]),
{
    let mut v: Vec<SymbolInfo> = Vec::new();
    v.push(btc_symbol_info());
    v.push(eth_symbol_info());
    v.push(aapl_symbol_info());
    v
}

/// The symbol a symbol-info request asks for: the given one, or Apple when
/// none is given.
pub open spec fn spec_requested_symbol(symbol: Option<String>) -> Seq<char> {
    match symbol {
        Some(s) => s@,
        None => "AAPL"@,
    }
}

/// Answers a symbol-info request: the catalog entry whose symbol matches
/// the requested one, or the Apple entry for an unknown or missing symbol.
pub fn get_symbols(symbol: Option<String>) -> (r: SymbolInfo)
    ensures
        spec_requested_symbol(symbol) == "BTC/USD"@ ==> spec_is_btc_info(r),
        spec_requested_symbol(symbol) == "ETH/USD"@ ==> spec_is_eth_info(r),
        spec_requested_symbol(symbol) != "BTC/USD"@ && spec_requested_symbol(symbol)
            != "ETH/USD"@ ==> spec_is_aapl_info(r),
{
    proof {
        reveal_strlit("AAPL");
        reveal_strlit("BTC/USD");
        reveal_strlit("ETH/USD");
        assert("BTC/USD"@[0] == 'B' && "ETH/USD"@[0] == 'E');
        assert("BTC/USD"@.len() == 7 && "ETH/USD"@.len() == 7 && "AAPL"@.len() == 4);
    }
    let q: String = match symbol {
        Some(s) => s,
        None => "AAPL".to_owned(),
    };
    if q == "BTC/USD".to_owned() {
        btc_symbol_info()
    } else if q == "ETH/USD".to_owned() {
        eth_symbol_info()
    } else {
        aapl_symbol_info()
    }
}

/// One exchange of the chart configuration.
pub struct Exchange {
    pub value: String,
    pub name: String,
    pub desc: String,
}

/// One symbol type of the chart configuration.
pub struct SymbolType {
    pub name: String,
    pub value: String,
}

/// The chart configuration the client fetches once at startup.
pub struct ConfigResponse {
    pub supports_search: bool,
    pub supports_group_request: bool,
    pub supports_marks: bool,
    pub supports_timescale_marks: bool,
    pub supports_time: bool,
    pub exchanges: Vec<Exchange>,
    pub symbols_types: Vec<SymbolType>,
    pub supported_resolutions: Vec<String>,
}

/// The one fixed configuration this deployment serves.
pub open spec fn spec_is_config(c: ConfigResponse) -> bool {
    &&& c.supports_search
    &&& !c.supports_group_request
    &&& c.supports_marks
    &&& c.supports_timescale_marks
    &&& c.supports_time
    &&& c.exchanges@.len() == 2
    &&& c.exchanges@[0].value@ == ""@
    &&& c.exchanges@[0].name@ == "All Exchanges"@
    &&& c.exchanges@[0].desc@ == ""@
    &&& c.exchanges@[1].value@ == "CryptoExchange"@
    &&& c.exchanges@[1].name@ == "CryptoExchange"@
    &&& c.exchanges@[1].desc@ == "CryptoExchange"@
    &&& c.symbols_types@.len() == 2
    &&& c.symbols_types@[0].name@ == "All types"@
    &&& c.symbols_types@[0].value@ == ""@
    &&& c.symbols_types@[1].name@ == "Crypto"@
    &&& c.symbols_types@[1].value@ == "crypto"@
    &&& spec_is_resolution_list(c.supported_resolutions@)
}

/// Builds the chart configuration.
pub fn get_config() -> (c: ConfigResponse)
    ensures
        spec_is_config(c),
{
    let mut exchanges: Vec<Exchange> = Vec::new();
    exchanges.push(
        Exchange { value: "".to_owned(), name: "All Exchanges".to_owned(), desc: "".to_owned() },
    );
    exchanges.push(
        Exchange {
            value: "CryptoExchange".to_owned(),
            name: "CryptoExchange".to_owned(),
            desc: "CryptoExchange".to_owned(),
        },
    );
    let mut symbols_types: Vec<SymbolType> = Vec::new();
    symbols_types.push(SymbolType { name: "All types".to_owned(), value: "".to_owned() });
    symbols_types.push(SymbolType { name: "Crypto".to_owned(), value: "crypto".to_owned() });
    ConfigResponse {
        supports_search: true,
        supports_group_request: false,
        supports_marks: true,
        supports_timescale_marks: true,
        supports_time: true,
        exchanges,
        symbols_types,
        supported_resolutions: resolution_list(),
    }
}

/// A chart response: the candle sequence decomposed into parallel arrays of
/// timestamps, opens, highs, lows, closes and volumes, plus a status flag
/// that distinguishes data from an empty result.
pub struct AdvancedChartResponse {
    pub s: String,
    pub t: Vec<u64>,
    pub o: Vec<u64>,
    pub h: Vec<u64>,
    pub l: Vec<u64>,
    pub c: Vec<u64>,
    pub v: Vec<u64>,
}

/// The arrays of `r` mirror `candles` exactly, and the status flag says
/// whether anything is there.
pub open spec fn spec_chart_of(r: AdvancedChartResponse, candles: Seq<Candle>) -> bool {
    &&& r.s@ == if candles.len() == 0 {
        "no_data"@
    } else {
        "ok"@
    }
    &&& r.t@.len() == candles.len()
    &&& r.o@.len() == candles.len()
    &&& r.h@.len() == candles.len()
    &&& r.l@.len() == candles.len()
    &&& r.c@.len() == candles.len()
    &&& r.v@.len() == candles.len()
    &&& forall|k: int| 0 <= k < candles.len() ==> #[trigger] r.t@[k] == candles[k].timestamp
    &&& forall|k: int| 0 <= k < candles.len() ==> #[trigger] r.o@[k] == candles[k].open
    &&& forall|k: int| 0 <= k < candles.len() ==> #[trigger] r.h@[k] == candles[k].high
    &&& forall|k: int| 0 <= k < candles.len() ==> #[trigger] r.l@[k] == candles[k].low
    &&& forall|k: int| 0 <= k < candles.len() ==> #[trigger] r.c@[k] == candles[k].close
    &&& forall|k: int| 0 <= k < candles.len() ==> #[trigger] r.v@[k] == candles[k].volume
}

/// Decomposes a candle sequence into the parallel-array chart response; an
/// empty sequence becomes the `no_data` response with empty arrays.
pub fn chart_response(candles: &Vec<Candle>) -> (r: AdvancedChartResponse)
    ensures
        spec_chart_of(r, candles@),
{
    let n = candles.len();
    let mut t: Vec<u64> = Vec::new();
    let mut o: Vec<u64> = Vec::new();
    let mut h: Vec<u64> = Vec::new();
    let mut l: Vec<u64> = Vec::new();
    let mut c: Vec<u64> = Vec::new();
    let mut v: Vec<u64> = Vec::new();
    let mut i: usize = 0;
    while i < n
        invariant
            i <= n,
            n == candles@.len(),
            t@.len() == i && o@.len() == i && h@.len() == i && l@.len() == i && c@.len() == i
                && v@.len() == i,
            forall|k: int| 0 <= k < i ==> #[trigger] t@[k] == candles@[k].timestamp,
            forall|k: int| 0 <= k < i ==> #[trigger] o@[k] == candles@[k].open,
            forall|k: int| 0 <= k < i ==> #[trigger] h@[k] == candles@[k].high,
            forall|k: int| 0 <= k < i ==> #[trigger] l@[k] == candles@[k].low,
            forall|k: int| 0 <= k < i ==> #[trigger] c@[k] == candles@[k].close,
            forall|k: int| 0 <= k < i ==> #[trigger] v@[k] == candles@[k].volume,
        decreases n - i,
    {
        let cd = candles[i];
        t.push(cd.timestamp);
        o.push(cd.open);
        h.push(cd.high);
        l.push(cd.low);
        c.push(cd.close);
        v.push(cd.volume);
        i = i + 1;
    }
    let status: String = if n == 0 {
        "no_data".to_owned()
    } else {
        "ok".to_owned()
    };
    AdvancedChartResponse { s: status, t, o, h, l, c, v }
}

/// The lower bound a history request resolves to: the given one, or zero.
pub open spec fn spec_resolved_from(from: Option<u64>) -> u64 {
    match from {
        Some(x) => x,
        None => 0,
    }
}

/// The upper bound a history request resolves to: the given one, or `now`.
pub open spec fn spec_resolved_to(to: Option<u64>, now: u64) -> u64 {
    match to {
        Some(x) => x,
        None => now,
    }
}

/// The resolution a history request resolves to: the given one, or one
/// minute.
pub open spec fn spec_resolved_resolution(resolution: Option<u64>) -> u64 {
    match resolution {
        Some(x) => x,
        None => 60,
    }
}

/// Answers a history request: missing parameters fall back to an empty
/// symbol, a one-minute resolution, a lower bound of zero and an upper
/// bound of `now` (the serving layer supplies the clock reading); the
/// candles of the resolved range then become a chart response whose arrays
/// are strictly ascending in time, stay inside the resolved bounds, and
/// keep the high/low of each row around its open and close.
pub fn get_history(
    store: &CandleStore,
    symbol: Option<String>,
    resolution: Option<u64>,
    from: Option<u64>,
    to: Option<u64>,
    now: u64,
) -> (r: AdvancedChartResponse)
    requires
        store.wf(),
    ensures
        r.s@ == if r.t@.len() == 0 {
            "no_data"@
        } else {
            "ok"@
        },
        r.o@.len() == r.t@.len() && r.h@.len() == r.t@.len() && r.l@.len() == r.t@.len()
            && r.c@.len() == r.t@.len() && r.v@.len() == r.t@.len(),
        forall|k: int|
            0 <= k < r.t@.len() ==> spec_resolved_from(from) <= #[trigger] r.t@[k]
                <= spec_resolved_to(to, now),
        forall|p: int, q: int| 0 <= p < q < r.t@.len() ==> #[trigger] r.t@[p] < #[trigger] r.t@[q],
        forall|k: int|
            0 <= k < r.t@.len() ==> #[trigger] r.h@[k] >= r.o@[k] && r.h@[k] >= r.c@[k] && r.l@[k]
                <= r.o@[k] && r.l@[k] <= r.c@[k],
{
    let sym: String = match symbol {
        Some(s) => s,
        None => String::new(),
    };
    let res: u64 = match resolution {
        Some(x) => x,
        None => 60,
    };
    let f: u64 = match from {
        Some(x) => x,
        None => 0,
    };
    let t: u64 = match to {
        Some(x) => x,
        None => now,
    };
    let candles = store.get_candles_in_time_range_secs(sym.as_str(), res, f, t);
    chart_response(&candles)
}

/// Answers a candle-range request: the candles of `[from, to]` for the key,
/// as a chart response with the same guarantees as a history response.
pub fn get_candles(
    store: &CandleStore,
    symbol: String,
    interval: u64,
    from: u64,
    to: u64,
) -> (r: AdvancedChartResponse)
    requires
        store.wf(),
    ensures
        r.s@ == if r.t@.len() == 0 {
            "no_data"@
        } else {
            "ok"@
        },
        r.o@.len() == r.t@.len() && r.h@.len() == r.t@.len() && r.l@.len() == r.t@.len()
            && r.c@.len() == r.t@.len() && r.v@.len() == r.t@.len(),
        forall|k: int| 0 <= k < r.t@.len() ==> from <= #[trigger] r.t@[k] <= to,
        forall|p: int, q: int| 0 <= p < q < r.t@.len() ==> #[trigger] r.t@[p] < #[trigger] r.t@[q],
        forall|k: int|
            0 <= k < r.t@.len() ==> #[trigger] r.h@[k] >= r.o@[k] && r.h@[k] >= r.c@[k] && r.l@[k]
                <= r.o@[k] && r.l@[k] <= r.c@[k],
{
    let candles = store.get_candles_in_time_range_secs(symbol.as_str(), interval, from, to);
    chart_response(&candles)
}

} // verus!
