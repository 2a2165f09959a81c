//! The ingest adapter: turning raw order events into normalized ticks and
//! fanning each tick out across every supported interval.

use vstd::prelude::*;
use crate::store::CandleStore;

verus! {

/// The Unix timestamp of the first block; a block's event time is this
/// plus its block number.
pub const GENESIS_TIMESTAMP: u64 = 1724996333;

/// The supported candle intervals in seconds: one minute, three minutes,
/// five minutes, fifteen minutes, one hour, one day, one week.
pub open spec fn spec_supported_intervals() -> Seq<u64> {
    seq![60u64, 180u64, 300u64, 900u64, 3600u64, 86400u64, 604800u64]
}

/// The supported candle intervals, in ascending order.
pub fn supported_intervals() -> (r: Vec<u64>)
    ensures
        r@ == spec_supported_intervals(),
        forall|k: int| 0 <= k < r@.len() ==> #[trigger] r@[k] > 0,
{
    let mut v: Vec<u64> = Vec::new();
    v.push(60);
    v.push(180);
    v.push(300);
    v.push(900);
    v.push(3600);
    v.push(86400);
    v.push(604800);
    proof {
        assert(v@ =~= spec_supported_intervals());
    }
    v
}

/// One raw order event from the upstream indexer, already decoded into
/// plain fields. Only complete trade events carry a tick; everything else
/// is dropped by `handle_order_event`.
pub struct PangeaOrderEvent {
    pub chain: u64,
    pub block_number: i64,
    pub block_hash: String,
    pub transaction_hash: String,
    pub transaction_index: u64,
    pub log_index: u64,
    pub market_id: String,
    pub order_id: String,
    pub event_type: Option<String>,
    pub asset: Option<String>,
    pub amount: Option<u128>,
    pub asset_type: Option<String>,
    pub order_type: Option<String>,
    pub price: Option<u128>,
    pub user: Option<String>,
    pub order_matcher: Option<String>,
    pub owner: Option<String>,
    pub limit_type: Option<String>,
}

/// What became of one raw order event.
#[derive(Clone, Copy, Debug, PartialEq, Eq, Structural)]
pub enum IngestOutcome {
    /// A complete trade event: its tick was applied to every supported
    /// interval.
    Applied,
    /// A trade event without a price or without an amount: dropped, no
    /// series touched.
    Incomplete,
    /// A trade event whose block number lies before the genesis time, so no
    /// non-negative event time exists for it: dropped, no series touched.
    InvalidTime,
    /// An event of some other type: ignored.
    NotTrade,
    /// An event with no type at all: dropped.
    MissingType,
}

/// The event time of a block: the genesis timestamp plus the block number.
pub open spec fn spec_event_time(block_number: i64) -> int {
    GENESIS_TIMESTAMP + block_number
}

/// A price or amount squeezed into a `u64`, topping out at `u64::MAX`.
pub open spec fn spec_clamp_u64(x: u128) -> u64 {
    if x > u64::MAX {
        u64::MAX
    } else {
        x as u64
    }
}

/// How `handle_order_event` classifies an event.
pub open spec fn spec_ingest_outcome(e: PangeaOrderEvent) -> IngestOutcome {
    match e.event_type {
        Some(t) => if t@ == "Trade"@ {
            if e.price is Some && e.amount is Some {
                if spec_event_time(e.block_number) >= 0 {
                    IngestOutcome::Applied
                } else {
                    IngestOutcome::InvalidTime
                }
            } else {
                IngestOutcome::Incomplete
            }
        } else {
            IngestOutcome::NotTrade
        },
        None => IngestOutcome::MissingType,
    }
}

impl CandleStore {
    /// Fans one normalized tick out across every supported interval: each
    /// interval's series absorbs the tick independently, so no interval's
    /// update observes or depends on another's state.
    pub fn ingest(&self, symbol: &str, price: u64, volume: u64, event_time: u64)
        requires
            self.wf(),
    {
        let intervals = supported_intervals();
        let n = intervals.len();
        let mut i: usize = 0;
        while i < n
            invariant
                self.wf(),
                i <= n,
                n == intervals@.len(),
                forall|k: int| 0 <= k < intervals@.len() ==> #[trigger] intervals@[k] > 0,
            decreases n - i,
        {
            self.add_price(symbol, intervals[i], price, volume, event_time);
            i = i + 1;
        }
    }
}

/// Applies one raw order event to the store. A complete trade event becomes
/// the tick `(price, amount, genesis time + block number)`, applied to the
/// fixed symbol the upstream feed serves and fanned out across every
/// supported interval; a malformed or foreign event is dropped before the
/// fan-out, touching no series. The returned outcome says which happened.
pub fn handle_order_event(candle_store: &CandleStore, event: PangeaOrderEvent) -> (o:
    IngestOutcome)
    requires
        candle_store.wf(),
    ensures
        o == spec_ingest_outcome(event),
{
    match &event.event_type {
        Some(event_type) => {
            let trade: String = "Trade".to_owned();
            if *event_type == trade {
                match (&event.price, &event.amount) {
                    (Some(price), Some(amount)) => {
                        if event.block_number >= 0 || GENESIS_TIMESTAMP >= (-(event.block_number
                            as i128)) as u64 {
                            let event_time = if event.block_number >= 0 {
                                GENESIS_TIMESTAMP + (event.block_number as u64)
                            } else {
                                GENESIS_TIMESTAMP - ((-(event.block_number as i128)) as u64)
                            };
                            let p = clamp_u64(*price);
                            let v = clamp_u64(*amount);
                            candle_store.ingest("ETH-USDC", p, v, event_time);
                            IngestOutcome::Applied
                        } else {
                            IngestOutcome::InvalidTime
                        }
                    },
                    _ => IngestOutcome::Incomplete,
                }
            } else {
                IngestOutcome::NotTrade
            }
        },
        None => IngestOutcome::MissingType,
    }
}

/// Squeezes a raw `u128` quantity into the `u64` the store aggregates,
/// topping out at `u64::MAX`.
pub fn clamp_u64(x: u128) -> (r: u64)
    ensures
        r == spec_clamp_u64(x),
{
    if x > u64::MAX as u128 {
        u64::MAX
    } else {
        x as u64
    }
}

} // verus!
