//! The timeline builder: converts per-packet durations, given in stream
//! time-base ticks, into a cumulative sequence of elapsed nanoseconds.
//!
//! Entry `i` of the timeline is the sum of the durations of packets
//! `0..=i`, each converted to nanoseconds first, exactly as the planner
//! consumes them. The conversion rounds each packet down to a whole number
//! of nanoseconds; that bounded imprecision is accepted by design.
use vstd::arithmetic::div_mod::lemma_div_pos_is_pos;
use vstd::arithmetic::mul::lemma_mul_upper_bound;
use vstd::prelude::*;

use crate::planner::timeline_monotone;

verus! {

/// Nanoseconds in one second.
pub const NANOS_PER_SECOND: u64 = 1_000_000_000;

/// The rational time base of the source stream: one tick lasts
/// `numer / denom` seconds. Supplied once by the source track and constant
/// for the whole operation.
#[derive(Clone, Copy, PartialEq, Eq, Structural, Debug)]
pub struct TimeBase {
    /// Numerator of the tick length in seconds.
    pub numer: u32,
    /// Denominator of the tick length in seconds; never zero for a valid
    /// time base.
    pub denom: u32,
}

/// Nanoseconds of a packet lasting `dur` ticks: `dur * numer / denom`
/// seconds, scaled to nanoseconds and rounded down.
pub open spec fn packet_nanos(dur: u64, tb: TimeBase) -> int
    recommends
        tb.denom > 0,
{
    (dur * tb.numer * NANOS_PER_SECOND) / (tb.denom as int)
}

/// Sum of the converted durations of the first `k` packets.
pub open spec fn cum_nanos(durs: Seq<u64>, tb: TimeBase, k: int) -> int
    decreases k,
{
    if k <= 0 {
        0
    } else {
        cum_nanos(durs, tb, k - 1) + packet_nanos(durs[k - 1], tb)
    }
}

/// Total duration of the stream in nanoseconds.
pub open spec fn total_nanos(durs: Seq<u64>, tb: TimeBase) -> int {
    cum_nanos(durs, tb, durs.len() as int)
}

/// The cumulative timeline: entry `i` is the elapsed time at the end of
/// packet `i`.
pub open spec fn spec_timeline(durs: Seq<u64>, tb: TimeBase) -> Seq<u64> {
    Seq::new(durs.len(), |i: int| cum_nanos(durs, tb, i + 1) as u64)
}

/// A single packet never lasts a negative number of nanoseconds.
pub proof fn lemma_packet_nanos_nonneg(dur: u64, tb: TimeBase)
    requires
        tb.denom > 0,
    ensures
        packet_nanos(dur, tb) >= 0,
{
    lemma_mul_upper_bound(dur as int, u64::MAX as int, tb.numer as int, u32::MAX as int);
    lemma_mul_upper_bound(
        dur * tb.numer,
        u64::MAX * u32::MAX,
        NANOS_PER_SECOND as int,
        NANOS_PER_SECOND as int,
    );
    lemma_div_pos_is_pos(dur * tb.numer * NANOS_PER_SECOND, tb.denom as int);
}

/// Cumulative times never decrease as more packets are taken in.
pub proof fn lemma_cum_nanos_monotone(durs: Seq<u64>, tb: TimeBase, k1: int, k2: int)
    requires
        tb.denom > 0,
        k1 <= k2,
    ensures
        cum_nanos(durs, tb, k1) <= cum_nanos(durs, tb, k2),
    decreases k2 - k1,
{
    if k1 < k2 {
        lemma_cum_nanos_monotone(durs, tb, k1, k2 - 1);
        if k2 > 0 {
            lemma_packet_nanos_nonneg(durs[k2 - 1], tb);
        }
    }
}

/// When the total fits in 64 bits, the timeline is a valid monotone
/// cumulative sequence.
pub proof fn lemma_spec_timeline_monotone(durs: Seq<u64>, tb: TimeBase)
    requires
        tb.denom > 0,
        total_nanos(durs, tb) <= u64::MAX,
    ensures
        timeline_monotone(spec_timeline(durs, tb)),
{
    let tl = spec_timeline(durs, tb);
    let n = durs.len() as int;
    assert forall|i: int, j: int| 0 <= i <= j < tl.len() implies #[trigger] tl[i]
        <= #[trigger] tl[j] by {
        lemma_cum_nanos_monotone(durs, tb, 0, i + 1);
        lemma_cum_nanos_monotone(durs, tb, i + 1, j + 1);
        lemma_cum_nanos_monotone(durs, tb, j + 1, n);
    }
}

/// Build the cumulative timeline for a packet list under a time base.
/// Returns the timeline whenever the total duration is representable in
/// 64-bit nanoseconds, and reports the overflow otherwise.
pub fn build_timeline(durations: &Vec<u64>, tb: TimeBase) -> (r: Option<Vec<u64>>)
    requires
        tb.denom > 0,
    ensures
        match r {
            Some(tl) => {
                &&& tl@ == spec_timeline(durations@, tb)
                &&& total_nanos(durations@, tb) <= u64::MAX
            },
            None => total_nanos(durations@, tb) > u64::MAX,
        },
{
    let n = durations.len();
    let mut tl: Vec<u64> = Vec::new();
    let mut acc: u64 = 0;
    let mut i: usize = 0;
    while i < n
        invariant
            tb.denom > 0,
            n == durations@.len(),
            i <= n,
            tl@.len() == i,
            acc == cum_nanos(durations@, tb, i as int),
            forall|j: int| 0 <= j < i ==> tl@[j] == cum_nanos(durations@, tb, j + 1),
        decreases n - i,
    {
        let d = durations[i];
        proof {
            lemma_mul_upper_bound(d as int, u64::MAX as int, tb.numer as int, u32::MAX as int);
            lemma_mul_upper_bound(
                d * tb.numer,
                u64::MAX * u32::MAX,
                NANOS_PER_SECOND as int,
                NANOS_PER_SECOND as int,
            );
            lemma_packet_nanos_nonneg(d, tb);
        }
        let pn: u128 = (d as u128) * (tb.numer as u128) * (NANOS_PER_SECOND as u128) / (
        tb.denom as u128);
        assert(pn == packet_nanos(d, tb));
        if pn > (u64::MAX - acc) as u128 {
            proof {
                lemma_cum_nanos_monotone(durations@, tb, i + 1, n as int);
            }
            return None;
        }
        acc = acc + (pn as u64);
        tl.push(acc);
        i = i + 1;
    }
    proof {
        assert(tl@ =~= spec_timeline(durations@, tb));
    }
    Some(tl)
}

} // verus!
