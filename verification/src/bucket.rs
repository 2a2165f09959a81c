//! Bucketing: mapping an event timestamp to the start of its time bucket.

use vstd::prelude::*;
use vstd::arithmetic::div_mod::{
    lemma_fundamental_div_mod, lemma_mod_division_less_than_divisor, lemma_mod_multiples_basic,
};

verus! {

/// The start of the bucket of width `interval` that `event_time` falls into.
pub open spec fn spec_period_start(event_time: u64, interval: u64) -> int
    recommends
        interval > 0,
{
    event_time - (event_time as int % interval as int)
}

/// Maps an event timestamp to the start time of its bucket:
/// the largest multiple of `interval` that is at most `event_time`.
pub fn period_start(event_time: u64, interval: u64) -> (r: u64)
    requires
        interval > 0,
    ensures
        r == spec_period_start(event_time, interval),
        r % interval == 0,
        r <= event_time < r + interval,
{
    proof {
        lemma_period_start_properties(event_time, interval);
    }
    event_time - event_time % interval
}

/// Bucketing correctness: the bucket start is aligned to the interval and
/// the event time lies inside the half-open bucket it is mapped to.
pub proof fn lemma_period_start_properties(event_time: u64, interval: u64)
    requires
        interval > 0,
    ensures
        spec_period_start(event_time, interval) % (interval as int) == 0,
        spec_period_start(event_time, interval) <= event_time
            < spec_period_start(event_time, interval) + interval,
        0 <= spec_period_start(event_time, interval),
{
    let t = event_time as int;
    let iv = interval as int;
    lemma_fundamental_div_mod(t, iv);
    lemma_mod_division_less_than_divisor(t, iv);
    assert(t - t % iv == iv * (t / iv));
    assert(iv * (t / iv) == (t / iv) * iv) by (nonlinear_arith);
    lemma_mod_multiples_basic(t / iv, iv);
}

/// Bucket starts are monotone in the event time: a later event never maps
/// to an earlier bucket.
pub proof fn lemma_period_start_monotone(t1: u64, t2: u64, interval: u64)
    requires
        interval > 0,
        t1 <= t2,
    ensures
        spec_period_start(t1, interval) <= spec_period_start(t2, interval),
{
    let iv = interval as int;
    lemma_period_start_properties(t1, interval);
    lemma_period_start_properties(t2, interval);
    let p1 = spec_period_start(t1, interval);
    let p2 = spec_period_start(t2, interval);
    if p2 < p1 {
        // Both are multiples of iv, so p2 <= p1 - iv, putting t2 below p1 <= t1.
        lemma_aligned_below(p2, p1, iv);
        assert(false);
    }
}

/// For multiples of `iv`, strictly less means at least `iv` less.
pub proof fn lemma_aligned_below(a: int, b: int, iv: int)
    requires
        iv > 0,
        a % iv == 0,
        b % iv == 0,
        a < b,
    ensures
        a + iv <= b,
{
    lemma_fundamental_div_mod(a, iv);
    lemma_fundamental_div_mod(b, iv);
    assert(a == (a / iv) * iv) by (nonlinear_arith)
        requires
            a == iv * (a / iv) + a % iv,
            a % iv == 0,
    ;
    assert(b == (b / iv) * iv) by (nonlinear_arith)
        requires
            b == iv * (b / iv) + b % iv,
            b % iv == 0,
    ;
    assert(a / iv < b / iv) by (nonlinear_arith)
        requires
            iv > 0,
            a == (a / iv) * iv,
            b == (b / iv) * iv,
            a < b,
    ;
    assert((a / iv + 1) * iv <= (b / iv) * iv) by (nonlinear_arith)
        requires
            iv > 0,
            a / iv < b / iv,
    ;
    assert((a / iv + 1) * iv == (a / iv) * iv + iv) by (nonlinear_arith);
}

} // verus!
