//! The store: one candle series per (symbol, interval) pair, shared by the
//! ingestion path and the query path behind a readers-writer lock.

use vstd::prelude::*;
use vstd::rwlock::{RwLock, RwLockPredicate};
use crate::candle::{candle_wf, Candle};
use crate::series::{
    lemma_range_filter_props, lemma_series_ascending, series_candles_wf, spec_outcome,
    spec_range_filter, spec_trim, spec_update, CandleSeries, TickOutcome, RETENTION_CAP,
};

verus! {

/// One slot of the store: the candle series for one (symbol, interval) key
/// (the interval is the one the series was created with).
pub struct SeriesEntry {
    pub symbol: String,
    pub series: CandleSeries,
}

/// Whether `e` is the slot for the key `(symbol, interval)`.
pub open spec fn entry_matches(e: SeriesEntry, symbol: Seq<char>, interval: u64) -> bool {
    e.symbol@ == symbol && e.series.interval == interval
}

/// Well-formedness of the slot list: every series is well formed and no two
/// slots share a (symbol, interval) key.
pub open spec fn store_entries_wf(entries: Seq<SeriesEntry>) -> bool {
    &&& forall|i: int| 0 <= i < entries.len() ==> (#[trigger] entries[i]).series.wf()
    &&& forall|i: int, j: int|
        0 <= i < j < entries.len() ==> !((#[trigger] entries[i]).symbol@ == (
        #[trigger] entries[j]).symbol@ && entries[i].series.interval
            == entries[j].series.interval)
}

/// Whether the store holds a series for the key.
pub open spec fn spec_store_has(
    entries: Seq<SeriesEntry>,
    symbol: Seq<char>,
    interval: u64,
) -> bool {
    exists|i: int| 0 <= i < entries.len() && entry_matches(#[trigger] entries[i], symbol, interval)
}

/// The slot index of the key (meaningful only when `spec_store_has` holds;
/// with unique keys it is the single matching index).
pub open spec fn spec_store_index(
    entries: Seq<SeriesEntry>,
    symbol: Seq<char>,
    interval: u64,
) -> int {
    choose|i: int| 0 <= i < entries.len() && entry_matches(#[trigger] entries[i], symbol, interval)
}

/// The candles stored under the key; an absent key reads as empty.
pub open spec fn spec_store_series(
    entries: Seq<SeriesEntry>,
    symbol: Seq<char>,
    interval: u64,
) -> Seq<Candle> {
    if spec_store_has(entries, symbol, interval) {
        entries[spec_store_index(entries, symbol, interval)].series.candles@
    } else {
        Seq::empty()
    }
}

/// With unique keys, two matching indices for one key coincide.
proof fn lemma_match_unique(
    entries: Seq<SeriesEntry>,
    symbol: Seq<char>,
    interval: u64,
    i: int,
    j: int,
)
    requires
        store_entries_wf(entries),
        0 <= i < entries.len(),
        0 <= j < entries.len(),
        entry_matches(entries[i], symbol, interval),
        entry_matches(entries[j], symbol, interval),
    ensures
        i == j,
{
    if i < j {
        assert(entries[i].symbol@ == entries[j].symbol@);
        assert(false);
    } else if j < i {
        assert(entries[j].symbol@ == entries[i].symbol@);
        assert(false);
    }
}

/// If slot `i` matches the key, the key is present, resolves to `i`, and
/// reads that slot's candles.
proof fn lemma_store_series_at(
    entries: Seq<SeriesEntry>,
    symbol: Seq<char>,
    interval: u64,
    i: int,
)
    requires
        store_entries_wf(entries),
        0 <= i < entries.len(),
        entry_matches(entries[i], symbol, interval),
    ensures
        spec_store_has(entries, symbol, interval),
        spec_store_index(entries, symbol, interval) == i,
        spec_store_series(entries, symbol, interval) == entries[i].series.candles@,
{
    assert(spec_store_has(entries, symbol, interval));
    let k = spec_store_index(entries, symbol, interval);
    assert(0 <= k < entries.len() && entry_matches(entries[k], symbol, interval));
    lemma_match_unique(entries, symbol, interval, k, i);
}

/// Replacing slot `i` in place (same key) or appending a slot with a fresh
/// key leaves every other key's series untouched; this lemma covers the
/// in-place case.
proof fn lemma_store_update_other_keys(
    old_entries: Seq<SeriesEntry>,
    new_entries: Seq<SeriesEntry>,
    i: int,
    symbol: Seq<char>,
    interval: u64,
)
    requires
        store_entries_wf(old_entries),
        0 <= i < old_entries.len(),
        new_entries.len() == old_entries.len(),
        forall|j: int|
            0 <= j < old_entries.len() && j != i ==> #[trigger] new_entries[j] == old_entries[j],
        entry_matches(old_entries[i], symbol, interval),
        entry_matches(new_entries[i], symbol, interval),
    ensures
        store_entries_wf(new_entries) <== new_entries[i].series.wf(),
        forall|s2: Seq<char>, iv2: u64|
            !(s2 == symbol && iv2 == interval) ==> #[trigger] spec_store_series(
                new_entries,
                s2,
                iv2,
            ) == spec_store_series(old_entries, s2, iv2),
        forall|s2: Seq<char>, iv2: u64|
            #[trigger] spec_store_has(new_entries, s2, iv2) == spec_store_has(
                old_entries,
                s2,
                iv2,
            ),
{
    // keys are unchanged slot by slot
    assert forall|j: int| 0 <= j < new_entries.len() implies (#[trigger] new_entries[j]).symbol@
        == old_entries[j].symbol@ && new_entries[j].series.interval
        == old_entries[j].series.interval by {
        if j != i {
            assert(new_entries[j] == old_entries[j]);
        }
    }
    if new_entries[i].series.wf() {
        assert forall|p: int, q: int| 0 <= p < q < new_entries.len() implies !((
        #[trigger] new_entries[p]).symbol@ == (#[trigger] new_entries[q]).symbol@
            && new_entries[p].series.interval == new_entries[q].series.interval) by {
            assert(new_entries[p].symbol@ == old_entries[p].symbol@);
            assert(new_entries[q].symbol@ == old_entries[q].symbol@);
        }
        assert forall|j: int| 0 <= j < new_entries.len() implies (
        #[trigger] new_entries[j]).series.wf() by {
            if j != i {
                assert(new_entries[j] == old_entries[j]);
            }
        }
    }
    assert forall|s2: Seq<char>, iv2: u64| #[trigger]
    spec_store_has(new_entries, s2, iv2) == spec_store_has(old_entries, s2, iv2) by {
        if spec_store_has(old_entries, s2, iv2) {
            let k = spec_store_index(old_entries, s2, iv2);
            assert(entry_matches(new_entries[k], s2, iv2));
        }
        if spec_store_has(new_entries, s2, iv2) {
            let k = choose|k: int|
                0 <= k < new_entries.len() && entry_matches(#[trigger] new_entries[k], s2, iv2);
            assert(entry_matches(old_entries[k], s2, iv2));
        }
    }
    assert forall|s2: Seq<char>, iv2: u64| !(s2 == symbol && iv2 == interval) implies #[trigger]
    spec_store_series(new_entries, s2, iv2) == spec_store_series(old_entries, s2, iv2) by {
        if spec_store_has(old_entries, s2, iv2) {
            let k = spec_store_index(old_entries, s2, iv2);
            assert(k != i) by {
                if k == i {
                    assert(entry_matches(old_entries[i], symbol, interval));
                    assert(entry_matches(old_entries[i], s2, iv2));
                }
            }
            assert(entry_matches(new_entries[k], s2, iv2));
            let k2 = choose|k2: int|
                0 <= k2 < new_entries.len() && entry_matches(#[trigger] new_entries[k2], s2, iv2);
            assert(k2 != i) by {
                if k2 == i {
                    assert(new_entries[i].symbol@ == symbol);
                }
            }
            assert(entry_matches(old_entries[k2], s2, iv2));
            lemma_match_unique(old_entries, s2, iv2, k, k2);
            assert(new_entries[k] == old_entries[k]);
        }
    }
}

/// The nested symbol -> interval -> candle-series map, held as a flat list
/// of uniquely keyed slots.
pub struct StoreState {
    pub entries: Vec<SeriesEntry>,
}

impl StoreState {
    /// The store invariant: well-formed series under unique keys.
    pub open spec fn wf(self) -> bool {
        store_entries_wf(self.entries@)
    }

    /// An empty store.
    pub fn new() -> (s: Self)
        ensures
            s.wf(),
            s.entries@ == Seq::<SeriesEntry>::empty(),
    {
        StoreState { entries: Vec::new() }
    }

    /// The slot index of the key, if present.
    fn find(&self, key: &String, interval: u64) -> (r: Option<usize>)
        ensures
            match r {
                Some(i) => i < self.entries@.len() && entry_matches(
                    self.entries@[i as int],
                    key@,
                    interval,
                ),
                None => forall|i: int|
                    0 <= i < self.entries@.len() ==> !entry_matches(
                        #[trigger] self.entries@[i],
                        key@,
                        interval,
                    ),
            },
    {
        let n = self.entries.len();
        let mut i: usize = 0;
        while i < n
            invariant
                i <= n,
                n == self.entries@.len(),
                forall|k: int|
                    0 <= k < i ==> !entry_matches(#[trigger] self.entries@[k], key@, interval),
            decreases n - i,
        {
            if self.entries[i].series.interval == interval && self.entries[i].symbol == *key {
                return Some(i);
            }
            i = i + 1;
        }
        None
    }

    /// Routes one tick to the series for `(symbol, interval)`, creating the
    /// series on first use. The key's series is updated exactly as
    /// `CandleSeries::update` describes; every other key is untouched.
    pub fn add_price(
        &mut self,
        symbol: &str,
        interval: u64,
        price: u64,
        volume: u64,
        event_time: u64,
    ) -> (o: TickOutcome)
        requires
            old(self).wf(),
            interval > 0,
        ensures
            final(self).wf(),
            spec_store_has(final(self).entries@, symbol@, interval),
            o == spec_outcome(
                spec_store_series(old(self).entries@, symbol@, interval),
                interval,
                event_time,
            ),
            spec_store_has(old(self).entries@, symbol@, interval) ==> spec_store_series(
                final(self).entries@,
                symbol@,
                interval,
            ) == spec_trim(
                spec_update(
                    spec_store_series(old(self).entries@, symbol@, interval),
                    interval,
                    price,
                    volume,
                    event_time,
                ),
                old(self).entries@[spec_store_index(
                    old(self).entries@,
                    symbol@,
                    interval,
                )].series.cap as int,
            ),
            !spec_store_has(old(self).entries@, symbol@, interval) ==> spec_store_series(
                final(self).entries@,
                symbol@,
                interval,
            ) == spec_update(Seq::<Candle>::empty(), interval, price, volume, event_time),
            forall|s2: Seq<char>, iv2: u64|
                !(s2 == symbol@ && iv2 == interval) ==> #[trigger] spec_store_series(
                    final(self).entries@,
                    s2,
                    iv2,
                ) == spec_store_series(old(self).entries@, s2, iv2),
            forall|s2: Seq<char>, iv2: u64|
                #[trigger] spec_store_has(final(self).entries@, s2, iv2) == (spec_store_has(
                    old(self).entries@,
                    s2,
                    iv2,
                ) || (s2 == symbol@ && iv2 == interval)),
    {
        let ghost old_entries = self.entries@;
        let key = symbol.to_owned();
        match self.find(&key, interval) {
            Some(i) => {
                proof {
                    lemma_store_series_at(old_entries, symbol@, interval, i as int);
                }
                let mut entry = self.entries.remove(i);
                let o = entry.series.update(price, volume, event_time);
                self.entries.insert(i, entry);
                proof {
                    assert forall|j: int|
                        0 <= j < old_entries.len() && j != i implies #[trigger] self.entries@[j]
                        == old_entries[j] by {
                        if j < i {
                            assert(self.entries@[j] == old_entries.remove(i as int).insert(
                                i as int,
                                entry,
                            )[j]);
                        }
                    }
                    assert(self.entries@.len() == old_entries.len());
                    assert(self.entries@[i as int] == entry);
                    assert(entry_matches(self.entries@[i as int], symbol@, interval));
                    lemma_store_update_other_keys(
                        old_entries,
                        self.entries@,
                        i as int,
                        symbol@,
                        interval,
                    );
                    lemma_store_series_at(self.entries@, symbol@, interval, i as int);
                }
                o
            },
            None => {
                proof {
                    assert(!spec_store_has(old_entries, symbol@, interval));
                }
                let mut series = CandleSeries::new(interval);
                let o = series.update(price, volume, event_time);
                proof {
                    assert(series.candles@ == spec_trim(
                        spec_update(
                            Seq::<Candle>::empty(),
                            interval,
                            price,
                            volume,
                            event_time,
                        ),
                        RETENTION_CAP as int,
                    ));
                    crate::series::lemma_spec_update_wf(
                        Seq::<Candle>::empty(),
                        interval,
                        price,
                        volume,
                        event_time,
                    );
                    assert(spec_update(Seq::<Candle>::empty(), interval, price, volume, event_time)
                        =~= seq![
                        crate::candle::fresh_candle(
                            price,
                            volume,
                            crate::bucket::spec_period_start(event_time, interval) as u64,
                        ),
                    ]);
                    assert(series.candles@ == spec_update(
                        Seq::<Candle>::empty(),
                        interval,
                        price,
                        volume,
                        event_time,
                    ));
                }
                let new_entry = SeriesEntry { symbol: key, series };
                self.entries.push(new_entry);
                let ghost ne = self.entries@;
                proof {
                    let n = old_entries.len() as int;
                    assert(ne[n] == new_entry);
                    assert(entry_matches(ne[n], symbol@, interval));
                    assert forall|p: int, q: int| 0 <= p < q < ne.len() implies !((
                    #[trigger] ne[p]).symbol@ == (#[trigger] ne[q]).symbol@
                        && ne[p].series.interval == ne[q].series.interval) by {
                        if q < n {
                            assert(ne[p] == old_entries[p] && ne[q] == old_entries[q]);
                        } else {
                            assert(ne[q] == new_entry);
                            if p < n {
                                assert(ne[p] == old_entries[p]);
                                assert(!entry_matches(old_entries[p], symbol@, interval));
                            }
                        }
                    }
                    assert forall|j: int| 0 <= j < ne.len() implies (
                    #[trigger] ne[j]).series.wf() by {
                        if j < n {
                            assert(ne[j] == old_entries[j]);
                        } else {
                            assert(ne[j] == new_entry);
                        }
                    }
                    lemma_store_series_at(ne, symbol@, interval, n);
                    assert forall|s2: Seq<char>, iv2: u64| !(s2 == symbol@ && iv2
                        == interval) implies #[trigger] spec_store_series(ne, s2, iv2)
                        == spec_store_series(old_entries, s2, iv2) by {
                        if spec_store_has(old_entries, s2, iv2) {
                            let k = spec_store_index(old_entries, s2, iv2);
                            assert(entry_matches(ne[k], s2, iv2));
                            let k2 = choose|k2: int|
                                0 <= k2 < ne.len() && entry_matches(#[trigger] ne[k2], s2, iv2);
                            assert(k2 != n) by {
                                if k2 == n {
                                    assert(ne[n].symbol@ == symbol@);
                                }
                            }
                            assert(entry_matches(old_entries[k2], s2, iv2));
                            lemma_match_unique(old_entries, s2, iv2, k, k2);
                            assert(ne[k] == old_entries[k]);
                        } else {
                            if spec_store_has(ne, s2, iv2) {
                                let k2 = choose|k2: int|
                                    0 <= k2 < ne.len() && entry_matches(
                                        #[trigger] ne[k2],
                                        s2,
                                        iv2,
                                    );
                                if k2 == n {
                                    assert(ne[n].symbol@ == symbol@);
                                } else {
                                    assert(entry_matches(old_entries[k2], s2, iv2));
                                }
                                assert(false);
                            }
                        }
                    }
                    assert forall|s2: Seq<char>, iv2: u64| #[trigger]
                    spec_store_has(ne, s2, iv2) == (spec_store_has(old_entries, s2, iv2) || (s2
                        == symbol@ && iv2 == interval)) by {
                        if spec_store_has(old_entries, s2, iv2) {
                            let k = spec_store_index(old_entries, s2, iv2);
                            assert(entry_matches(ne[k], s2, iv2));
                        }
                        if spec_store_has(ne, s2, iv2) && !(s2 == symbol@ && iv2 == interval) {
                            let k2 = choose|k2: int|
                                0 <= k2 < ne.len() && entry_matches(#[trigger] ne[k2], s2, iv2);
                            if k2 == n {
                                assert(ne[n].symbol@ == symbol@);
                                assert(false);
                            } else {
                                assert(entry_matches(old_entries[k2], s2, iv2));
                            }
                        }
                    }
                }
                o
            },
        }
    }

    /// The most recent `count` candles for the key, oldest first; an
    /// unknown key, or a count of zero, yields an empty result.
    pub fn get_candles(&self, symbol: &str, interval: u64, count: usize) -> (r: Vec<Candle>)
        requires
            self.wf(),
        ensures
            r@.len() == if count as int <= spec_store_series(
                self.entries@,
                symbol@,
                interval,
            ).len() {
                count as int
            } else {
                spec_store_series(self.entries@, symbol@, interval).len() as int
            },
            r@ == spec_store_series(self.entries@, symbol@, interval).subrange(
                spec_store_series(self.entries@, symbol@, interval).len() - r@.len(),
                spec_store_series(self.entries@, symbol@, interval).len() as int,
            ),
    {
        let key = symbol.to_owned();
        match self.find(&key, interval) {
            Some(i) => {
                proof {
                    lemma_store_series_at(self.entries@, symbol@, interval, i as int);
                }
                self.entries[i].series.latest(count)
            },
            None => {
                proof {
                    assert(!spec_store_has(self.entries@, symbol@, interval));
                    assert(Seq::<Candle>::empty().subrange(0, 0) =~= Seq::<Candle>::empty());
                }
                Vec::new()
            },
        }
    }

    /// The candles for the key with timestamps in the inclusive range
    /// `[from, to]` (seconds), oldest first; an unknown key yields an empty
    /// result.
    pub fn get_candles_in_time_range_secs(
        &self,
        symbol: &str,
        interval: u64,
        from: u64,
        to: u64,
    ) -> (r: Vec<Candle>)
        requires
            self.wf(),
        ensures
            r@ == spec_range_filter(
                spec_store_series(self.entries@, symbol@, interval),
                from,
                to,
            ),
    {
        let key = symbol.to_owned();
        match self.find(&key, interval) {
            Some(i) => {
                proof {
                    lemma_store_series_at(self.entries@, symbol@, interval, i as int);
                }
                self.entries[i].series.in_range(from, to)
            },
            None => {
                proof {
                    assert(!spec_store_has(self.entries@, symbol@, interval));
                }
                Vec::new()
            },
        }
    }

    /// The smallest and largest candle timestamp over every symbol and
    /// interval, or nothing if no candle is stored anywhere.
    pub fn get_min_max_timestamps(&self) -> (r: Option<(u64, u64)>)
        requires
            self.wf(),
        ensures
            match r {
                None => forall|i: int, j: int| !spec_valid_pos(self.entries@, i, j),
                Some(p) => {
                    &&& exists|i: int, j: int|
                        spec_valid_pos(self.entries@, i, j) && #[trigger] spec_ts_at(
                            self.entries@,
                            i,
                            j,
                        ) == p.0
                    &&& exists|i: int, j: int|
                        spec_valid_pos(self.entries@, i, j) && #[trigger] spec_ts_at(
                            self.entries@,
                            i,
                            j,
                        ) == p.1
                    &&& forall|i: int, j: int|
                        spec_valid_pos(self.entries@, i, j) ==> p.0 <= #[trigger] spec_ts_at(
                            self.entries@,
                            i,
                            j,
                        ) <= p.1
                },
            },
    {
        let n = self.entries.len();
        let mut found = false;
        let mut mn: u64 = 0;
        let mut mx: u64 = 0;
        let mut i: usize = 0;
        while i < n
            invariant
                self.wf(),
                i <= n,
                n == self.entries@.len(),
                !found ==> forall|i2: int, j2: int|
                    0 <= i2 < i ==> !spec_valid_pos(self.entries@, i2, j2),
                found ==> exists|i2: int, j2: int|
                    spec_valid_pos(self.entries@, i2, j2) && #[trigger] spec_ts_at(
                        self.entries@,
                        i2,
                        j2,
                    ) == mn,
                found ==> exists|i2: int, j2: int|
                    spec_valid_pos(self.entries@, i2, j2) && #[trigger] spec_ts_at(
                        self.entries@,
                        i2,
                        j2,
                    ) == mx,
                found ==> forall|i2: int, j2: int|
                    spec_valid_pos(self.entries@, i2, j2) && i2 < i ==> mn <= #[trigger] spec_ts_at(
                        self.entries@,
                        i2,
                        j2,
                    ) <= mx,
                !found ==> mn == 0 && mx == 0,
            decreases n - i,
        {
            let len_c = self.entries[i].series.candles.len();
            if len_c > 0 {
                let lo = self.entries[i].series.candles[0].timestamp;
                let hi = self.entries[i].series.candles[len_c - 1].timestamp;
                proof {
                    let cs = self.entries@[i as int].series.candles@;
                    let iv = self.entries@[i as int].series.interval;
                    assert(self.entries@[i as int].series.wf());
                    assert forall|j: int| 0 <= j < cs.len() implies lo <= (
                    #[trigger] cs[j]).timestamp <= hi by {
                        if 0 < j {
                            lemma_series_ascending(cs, iv, 0, j);
                        }
                        if j < cs.len() - 1 {
                            lemma_series_ascending(cs, iv, j, cs.len() - 1);
                        }
                    }
                }
                let new_mn = if found && mn < lo {
                    mn
                } else {
                    lo
                };
                let new_mx = if found && mx > hi {
                    mx
                } else {
                    hi
                };
                proof {
                    assert(spec_valid_pos(self.entries@, i as int, 0));
                    assert(spec_valid_pos(self.entries@, i as int, len_c - 1));
                    assert(spec_ts_at(self.entries@, i as int, 0) == lo);
                    assert(spec_ts_at(self.entries@, i as int, len_c - 1) == hi);
                    assert forall|i2: int, j2: int|
                        spec_valid_pos(self.entries@, i2, j2) && i2 < i + 1 implies new_mn
                        <= #[trigger] spec_ts_at(self.entries@, i2, j2) <= new_mx by {
                        if i2 == i {
                            let cs = self.entries@[i as int].series.candles@;
                            assert(lo <= cs[j2].timestamp <= hi);
                        }
                    }
                }
                found = true;
                mn = new_mn;
                mx = new_mx;
            } else {
                proof {
                    assert forall|j2: int| !spec_valid_pos(self.entries@, i as int, j2) by {}
                }
            }
            i = i + 1;
        }
        if found {
            Some((mn, mx))
        } else {
            proof {
                assert forall|i2: int, j2: int| !spec_valid_pos(self.entries@, i2, j2) by {
                    if 0 <= i2 < n {
                        assert(!spec_valid_pos(self.entries@, i2, j2));
                    }
                }
            }
            None
        }
    }
}

/// Whether `(i, j)` addresses a stored candle: slot `i` exists and its
/// series has a candle at position `j`.
pub open spec fn spec_valid_pos(entries: Seq<SeriesEntry>, i: int, j: int) -> bool {
    0 <= i < entries.len() && 0 <= j < entries[i].series.candles@.len()
}

/// The timestamp of the candle at position `(i, j)`.
pub open spec fn spec_ts_at(entries: Seq<SeriesEntry>, i: int, j: int) -> u64 {
    entries[i].series.candles@[j].timestamp
}

/// The lock invariant of the shared store: the guarded map is well formed.
pub struct StorePred {}

impl RwLockPredicate<StoreState> for StorePred {
    open spec fn inv(self, v: StoreState) -> bool {
        v.wf()
    }
}

/// The process-wide candle store: the nested map behind one readers-writer
/// lock, so any number of queries may read together while an update holds
/// exclusive access. Constructed once at process start and shared by the
/// ingestion and the query path.
///
/// Every value that ever sits in the lock satisfies `StoreState::wf`, so
/// each reader sees a consistent snapshot: every series well formed, gap
/// free and bounded. What a method returns is therefore described against
/// the snapshot it read; concurrent writers may change the store before or
/// after, never during, one method's critical section. The lock is itself
/// verified, so no poisoned-lock failure exists that an operation would
/// have to surface.
pub struct CandleStore {
    pub locked: RwLock<StoreState, StorePred>,
}

impl CandleStore {
    /// The handle invariant: the lock carries the store predicate.
    pub open spec fn wf(self) -> bool {
        self.locked.pred() == (StorePred {  })
    }

    /// Creates a new empty `CandleStore`.
    pub fn new() -> (s: Self)
        ensures
            s.wf(),
    {
        let state = StoreState::new();
        CandleStore { locked: RwLock::new(state, Ghost(StorePred {  })) }
    }

    /// Routes one tick to the series for `(symbol, interval)` under the
    /// write lock, creating the series on first use. The tick merges into
    /// the last candle of its bucket, appends (gap-filling any skipped
    /// buckets and trimming to the retention cap), or — if its bucket is
    /// older than the series' last — is rejected, as the returned outcome
    /// reports.
    pub fn add_price(
        &self,
        symbol: &str,
        interval: u64,
        price: u64,
        volume: u64,
        event_time: u64,
    ) -> (o: TickOutcome)
        requires
            self.wf(),
            interval > 0,
    {
        let (mut state, handle) = self.locked.acquire_write();
        let o = state.add_price(symbol, interval, price, volume, event_time);
        handle.release_write(state);
        o
    }

    /// The most recent `count` candles for the key in the snapshot read
    /// under the lock, oldest first: well-formed candles, consecutive
    /// timestamps exactly `interval` apart. An unknown key or a zero count
    /// yields an empty result.
    pub fn get_candles(&self, symbol: &str, interval: u64, count: usize) -> (r: Vec<Candle>)
        requires
            self.wf(),
        ensures
            r@.len() <= count,
            forall|k: int| 0 <= k < r@.len() ==> candle_wf(#[trigger] r@[k]),
            forall|k: int|
                1 <= k < r@.len() ==> (#[trigger] r@[k]).timestamp == r@[k - 1].timestamp
                    + interval,
            forall|k: int| 0 <= k < r@.len() ==> (#[trigger] r@[k]).timestamp % interval == 0,
            interval == 0 ==> r@.len() == 0,
    {
        let read = self.locked.acquire_read();
        let state = read.borrow();
        let r = state.get_candles(symbol, interval, count);
        proof {
            let series = spec_store_series(state.entries@, symbol@, interval);
            if spec_store_has(state.entries@, symbol@, interval) {
                let idx = spec_store_index(state.entries@, symbol@, interval);
                assert(state.entries@[idx].series.wf());
                assert(series_candles_wf(series, interval));
            }
            crate::series::lemma_subrange_wf(
                series,
                interval,
                series.len() - r@.len(),
                series.len() as int,
            );
        }
        read.release_read();
        r
    }

    /// The candles for the key with timestamps in the inclusive range
    /// `[from, to]` (seconds), from the snapshot read under the lock:
    /// oldest first, well formed, strictly ascending, all within the range.
    /// An unknown key or an empty range yields an empty result.
    pub fn get_candles_in_time_range_secs(
        &self,
        symbol: &str,
        interval: u64,
        from: u64,
        to: u64,
    ) -> (r: Vec<Candle>)
        requires
            self.wf(),
        ensures
            forall|k: int|
                0 <= k < r@.len() ==> from <= (#[trigger] r@[k]).timestamp <= to,
            forall|k: int| 0 <= k < r@.len() ==> candle_wf(#[trigger] r@[k]),
            forall|p: int, q: int|
                0 <= p < q < r@.len() ==> (#[trigger] r@[p]).timestamp < (
                #[trigger] r@[q]).timestamp,
    {
        let read = self.locked.acquire_read();
        let state = read.borrow();
        let r = state.get_candles_in_time_range_secs(symbol, interval, from, to);
        proof {
            let series = spec_store_series(state.entries@, symbol@, interval);
            if spec_store_has(state.entries@, symbol@, interval) {
                let idx = spec_store_index(state.entries@, symbol@, interval);
                assert(state.entries@[idx].series.wf());
                assert(series_candles_wf(series, interval));
                lemma_range_filter_props(series, interval, from, to);
            } else {
                assert(series.len() == 0);
                assert(spec_range_filter(series, from, to) =~= Seq::<Candle>::empty());
            }
        }
        read.release_read();
        r
    }

    /// Same as `get_candles_in_time_range_secs`: the bounds are compared to
    /// the candle timestamps in seconds, exactly as the second-based query
    /// does.
    pub fn get_candles_in_time_range_mils(
        &self,
        symbol: &str,
        interval: u64,
        from: u64,
        to: u64,
    ) -> (r: Vec<Candle>)
        requires
            self.wf(),
        ensures
            forall|k: int|
                0 <= k < r@.len() ==> from <= (#[trigger] r@[k]).timestamp <= to,
            forall|k: int| 0 <= k < r@.len() ==> candle_wf(#[trigger] r@[k]),
            forall|p: int, q: int|
                0 <= p < q < r@.len() ==> (#[trigger] r@[p]).timestamp < (
                #[trigger] r@[q]).timestamp,
    {
        self.get_candles_in_time_range_secs(symbol, interval, from, to)
    }

    /// The smallest and largest candle timestamp over every symbol and
    /// interval in the snapshot read under the lock, or nothing if the
    /// store holds no candle at all.
    pub fn get_min_max_timestamps(&self) -> (r: Option<(u64, u64)>)
        requires
            self.wf(),
        ensures
            match r {
                Some(p) => p.0 <= p.1,
                None => true,
            },
    {
        let read = self.locked.acquire_read();
        let state = read.borrow();
        let r = state.get_min_max_timestamps();
        proof {
            match r {
                Some(p) => {
                    let (i, j) = choose|i: int, j: int|
                        spec_valid_pos(state.entries@, i, j) && #[trigger] spec_ts_at(
                            state.entries@,
                            i,
                            j,
                        ) == p.0;
                    assert(spec_valid_pos(state.entries@, i, j));
                    assert(p.0 <= spec_ts_at(state.entries@, i, j) <= p.1);
                },
                None => {},
            }
        }
        read.release_read();
        r
    }
}

} // verus!
