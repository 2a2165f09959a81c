//! The OHLCV candle value type and the aggregation steps on a single candle.

use vstd::prelude::*;

verus! {

/// One OHLCV candle: open/high/low/close price and traded volume for the
/// bucket that starts at `timestamp` (integer seconds, aligned to the
/// series' interval). Prices and volumes are non-negative integer
/// quantities in the instrument's smallest unit.
#[derive(Clone, Copy, Debug, PartialEq, Eq, Structural)]
pub struct Candle {
    pub open: u64,
    pub high: u64,
    pub low: u64,
    pub close: u64,
    pub volume: u64,
    pub timestamp: u64,
}

/// The per-candle invariant: the high is at least the open and the close,
/// and the low is at most the open and the close.
pub open spec fn candle_wf(c: Candle) -> bool {
    &&& c.high >= c.open
    &&& c.high >= c.close
    &&& c.low <= c.open
    &&& c.low <= c.close
}

/// Addition on volumes that tops out at `u64::MAX` instead of wrapping.
pub open spec fn spec_sat_add(a: u64, b: u64) -> u64 {
    if a + b <= u64::MAX {
        (a + b) as u64
    } else {
        u64::MAX
    }
}

/// The candle a first tick of a bucket produces: all four prices equal the
/// tick's price and the volume is the tick's volume.
pub open spec fn fresh_candle(price: u64, volume: u64, timestamp: u64) -> Candle {
    Candle { open: price, high: price, low: price, close: price, volume, timestamp }
}

/// The gap-filling candle for a bucket with no trades: flat at the previous
/// close, with zero volume.
pub open spec fn synthetic_candle(prev_close: u64, timestamp: u64) -> Candle {
    Candle {
        open: prev_close,
        high: prev_close,
        low: prev_close,
        close: prev_close,
        volume: 0,
        timestamp,
    }
}

/// The candle `c` after absorbing one more tick of the same bucket: the high
/// and low widen to cover the price, the close becomes the price, and the
/// tick's volume is added (saturating at `u64::MAX`).
pub open spec fn merged_candle(c: Candle, price: u64, volume: u64) -> Candle {
    Candle {
        open: c.open,
        high: if price > c.high {
            price
        } else {
            c.high
        },
        low: if price < c.low {
            price
        } else {
            c.low
        },
        close: price,
        volume: spec_sat_add(c.volume, volume),
        timestamp: c.timestamp,
    }
}

impl Candle {
    /// Builds the candle for the first tick of a bucket.
    pub fn new(price: u64, volume: u64, timestamp: u64) -> (c: Candle)
        ensures
            c == fresh_candle(price, volume, timestamp),
    {
        Candle { open: price, high: price, low: price, close: price, volume, timestamp }
    }

    /// Builds the gap-filling candle for a bucket with no trades.
    pub fn flat(prev_close: u64, timestamp: u64) -> (c: Candle)
        ensures
            c == synthetic_candle(prev_close, timestamp),
    {
        Candle {
            open: prev_close,
            high: prev_close,
            low: prev_close,
            close: prev_close,
            volume: 0,
            timestamp,
        }
    }

    /// Absorbs one more tick of this candle's bucket.
    pub fn merge(&self, price: u64, volume: u64) -> (c: Candle)
        ensures
            c == merged_candle(*self, price, volume),
    {
        let new_volume = if volume <= u64::MAX - self.volume {
            self.volume + volume
        } else {
            u64::MAX
        };
        Candle {
            open: self.open,
            high: if price > self.high {
                price
            } else {
                self.high
            },
            low: if price < self.low {
                price
            } else {
                self.low
            },
            close: price,
            volume: new_volume,
            timestamp: self.timestamp,
        }
    }
}

} // verus!
