//! The chunk planner: partitions a cumulative timeline into contiguous runs
//! of packets whose durations approximate a requested target.
//!
//! Times are integer nanoseconds. The timeline holds, for each packet, the
//! cumulative elapsed time at the end of that packet. A chunk is extended
//! until its cumulative time reaches or exceeds the target, so every chunk
//! except the last lasts at least the target; the final chunk absorbs the
//! remainder. Boundaries are snapped to packet edges: compressed frames are
//! never split.
use vstd::prelude::*;

verus! {

/// One planned chunk: a start and end time in nanoseconds and a half-open
/// range of packet indices. Ranges of consecutive chunks are contiguous and
/// together cover every packet exactly once.
#[derive(Clone, Copy, PartialEq, Eq, Structural, Debug)]
pub struct ChunkInfo {
    /// Cumulative stream time at which the chunk starts.
    pub start_time: u64,
    /// Cumulative stream time at which the chunk ends.
    pub end_time: u64,
    /// Index of the first packet of the chunk.
    pub start_packet: usize,
    /// One past the index of the last packet of the chunk.
    pub end_packet: usize,
}

/// A timeline is valid when its cumulative times never decrease.
pub open spec fn timeline_monotone(tl: Seq<u64>) -> bool {
    forall|i: int, j: int| #![trigger tl[i], tl[j]] 0 <= i <= j < tl.len() ==> tl[i] <= tl[j]
}

/// First index `end > e - 1` at which a chunk that began before `e` stops
/// growing: the scan keeps including packets while the cumulative time of the
/// previous packet is still below `tend`, and stops at the end of the stream.
pub open spec fn advance_end(tl: Seq<u64>, e: int, tend: int) -> int
    decreases tl.len() - e,
{
    if e < tl.len() && tl[e - 1] < tend {
        advance_end(tl, e + 1, tend)
    } else {
        e
    }
}

/// The boundary scan never moves backwards and never passes the end of the
/// timeline.
pub proof fn lemma_advance_end_bounds(tl: Seq<u64>, e: int, tend: int)
    requires
        e <= tl.len(),
    ensures
        e <= advance_end(tl, e, tend) <= tl.len(),
    decreases tl.len() - e,
{
    if e < tl.len() && tl[e - 1] < tend {
        lemma_advance_end_bounds(tl, e + 1, tend);
    }
}

/// What the boundary scan guarantees about the packets it passed over and
/// about the packet it stopped at.
pub proof fn lemma_advance_end_props(tl: Seq<u64>, e: int, tend: int)
    requires
        e <= tl.len(),
    ensures
        forall|j: int| e <= j < advance_end(tl, e, tend) ==> #[trigger] tl[j - 1] < tend,
        advance_end(tl, e, tend) < tl.len() ==> tl[advance_end(tl, e, tend) - 1] >= tend,
        advance_end(tl, e, tend) > e ==> tl[advance_end(tl, e, tend) - 2] < tend,
    decreases tl.len() - e,
{
    if e < tl.len() && tl[e - 1] < tend {
        lemma_advance_end_props(tl, e + 1, tend);
        let a = advance_end(tl, e, tend);
        if a > e && !(a > e + 1) {
            assert(a == e + 1);
            assert(tl[a - 2] == tl[e - 1]);
        }
    }
}

/// The plan for the packets from index `start` on, where the running chunk
/// begins at cumulative time `start_time`. Each chunk takes at least one
/// packet, then grows while the previous packet's cumulative time is below
/// the chunk's target end.
pub open spec fn spec_plan_from(tl: Seq<u64>, target: u64, start: int, start_time: u64) -> Seq<
    ChunkInfo,
>
    decreases tl.len() - start,
    when 0 <= start
    via spec_plan_from_decreases
{
    if start < tl.len() {
        let end = advance_end(tl, start + 1, start_time + target);
        let c = ChunkInfo {
            start_time: start_time,
            end_time: tl[end - 1],
            start_packet: start as usize,
            end_packet: end as usize,
        };
        seq![c] + spec_plan_from(tl, target, end, tl[end - 1])
    } else {
        seq![]
    }
}

#[via_fn]
proof fn spec_plan_from_decreases(tl: Seq<u64>, target: u64, start: int, start_time: u64) {
    if start < tl.len() {
        lemma_advance_end_bounds(tl, start + 1, start_time + target);
    }
}

/// The full plan for a timeline and a target chunk duration.
pub open spec fn spec_plan(tl: Seq<u64>, target: u64) -> Seq<ChunkInfo> {
    spec_plan_from(tl, target, 0, 0)
}

/// Duration, in stream time, of packet `i`: the step from the previous
/// cumulative time to this one.
pub open spec fn packet_duration(tl: Seq<u64>, i: int) -> int {
    if i == 0 {
        tl[0] as int
    } else {
        tl[i] - tl[i - 1]
    }
}

/// Structural facts that hold of every suffix plan whose starting time is the
/// cumulative time just before its starting packet: the chunks are contiguous,
/// non-empty, exhaust the timeline, chain their times, and respect the target.
proof fn lemma_plan_from_shape(tl: Seq<u64>, target: u64, start: int, start_time: u64)
    requires
        tl.len() <= usize::MAX,
        0 <= start < tl.len(),
        start_time == if start == 0 { 0 } else { tl[start - 1] as int },
    ensures
        ({
            let cs = spec_plan_from(tl, target, start, start_time);
            &&& cs.len() >= 1
            &&& cs[0].start_packet == start
            &&& cs[0].start_time == start_time
            &&& cs[cs.len() - 1].end_packet == tl.len()
            &&& forall|k: int|
                0 <= k < cs.len() ==> (#[trigger] cs[k]).start_packet < cs[k].end_packet
                    <= tl.len()
            &&& forall|k: int|
                0 <= k < cs.len() ==> (#[trigger] cs[k]).end_time == tl[cs[k].end_packet - 1]
            &&& forall|k: int|
                0 <= k < cs.len() ==> (#[trigger] cs[k]).start_time == if cs[k].start_packet
                    == 0 {
                    0
                } else {
                    tl[cs[k].start_packet - 1] as int
                }
            &&& forall|k: int|
                0 < k < cs.len() ==> (#[trigger] cs[k]).start_packet == cs[k - 1].end_packet
                    && cs[k].start_time == cs[k - 1].end_time
            &&& forall|k: int|
                0 <= k < cs.len() ==> ((#[trigger] cs[k]).end_packet < tl.len()
                    ==> cs[k].end_time >= cs[k].start_time + target)
            &&& forall|k: int|
                0 <= k < cs.len() ==> ((#[trigger] cs[k]).start_packet + 1 < cs[k].end_packet
                    ==> tl[cs[k].end_packet - 2] < cs[k].start_time + target)
        }),
    decreases tl.len() - start,
{
    let tend = start_time + target;
    let end = advance_end(tl, start + 1, tend);
    lemma_advance_end_bounds(tl, start + 1, tend);
    lemma_advance_end_props(tl, start + 1, tend);
    let c = ChunkInfo {
        start_time: start_time,
        end_time: tl[end - 1],
        start_packet: start as usize,
        end_packet: end as usize,
    };
    let cs = spec_plan_from(tl, target, start, start_time);
    let rest = spec_plan_from(tl, target, end, tl[end - 1]);
    assert(cs == seq![c] + rest);
    assert(cs[0] == c);
    if end == tl.len() {
        assert(rest == Seq::<ChunkInfo>::empty());
        assert(cs.len() == 1);
    } else {
        lemma_plan_from_shape(tl, target, end, tl[end - 1]);
        assert forall|k: int| 1 <= k < cs.len() implies cs[k] == rest[k - 1] by {
            assert(cs[k] == (seq![c] + rest)[k]);
        }
        assert(cs[cs.len() - 1] == rest[rest.len() - 1]);
        assert forall|k: int| 0 < k < cs.len() implies (#[trigger] cs[k]).start_packet == cs[k
            - 1].end_packet && cs[k].start_time == cs[k - 1].end_time by {
            assert(cs[k] == rest[k - 1]);
            if k == 1 {
                assert(rest[0].start_packet == end);
                assert(rest[0].start_time == tl[end - 1]);
            } else {
                assert(cs[k - 1] == rest[k - 2]);
                assert(rest[k - 1].start_packet == rest[k - 1 - 1].end_packet && rest[k
                    - 1].start_time == rest[k - 1 - 1].end_time);
            }
        }
        assert forall|k: int|
            0 <= k < cs.len() && (#[trigger] cs[k]).end_packet < tl.len() implies cs[k].end_time
            >= cs[k].start_time + target by {
            if k > 0 {
                assert(cs[k] == rest[k - 1]);
            }
        }
        assert forall|k: int|
            0 <= k < cs.len() && (#[trigger] cs[k]).start_packet + 1 < cs[k].end_packet implies tl[
            cs[k].end_packet - 2] < cs[k].start_time + target by {
            if k > 0 {
                assert(cs[k] == rest[k - 1]);
            }
        }
    }
}

/// Coverage and no-empty-chunks: the chunk ranges of a plan are contiguous,
/// each holds at least one packet, the first starts at packet zero, the last
/// ends at the packet count, and consecutive chunks share their boundary, so
/// every packet index is covered exactly once, in order.
pub proof fn lemma_plan_coverage(tl: Seq<u64>, target: u64)
    requires
        0 < tl.len() <= usize::MAX,
    ensures
        ({
            let cs = spec_plan(tl, target);
            &&& cs.len() >= 1
            &&& cs[0].start_packet == 0
            &&& cs[cs.len() - 1].end_packet == tl.len()
            &&& forall|k: int|
                0 <= k < cs.len() ==> (#[trigger] cs[k]).start_packet < cs[k].end_packet
                    <= tl.len()
            &&& forall|k: int|
                0 <= k < cs.len() - 1 ==> (#[trigger] cs[k + 1]).start_packet == cs[k].end_packet
        }),
{
    lemma_plan_from_shape(tl, target, 0, 0);
}

/// Disjointness of the chunk ranges of a suffix plan: no chunk reaches
/// back before `start`, and the ranges of distinct chunks never overlap.
proof fn lemma_plan_from_partition(tl: Seq<u64>, target: u64, start: int, start_time: u64)
    requires
        tl.len() <= usize::MAX,
        0 <= start <= tl.len(),
    ensures
        ({
            let cs = spec_plan_from(tl, target, start, start_time);
            &&& forall|k: int| 0 <= k < cs.len() ==> start <= (#[trigger] cs[k]).start_packet
            &&& forall|k1: int, k2: int|
                0 <= k1 < k2 < cs.len() ==> (#[trigger] cs[k1]).end_packet <= (
                #[trigger] cs[k2]).start_packet
        }),
    decreases tl.len() - start,
{
    let cs = spec_plan_from(tl, target, start, start_time);
    if start == tl.len() {
        assert(cs == Seq::<ChunkInfo>::empty());
    } else {
        let tend = start_time + target;
        let end = advance_end(tl, start + 1, tend);
        lemma_advance_end_bounds(tl, start + 1, tend);
        let c = ChunkInfo {
            start_time: start_time,
            end_time: tl[end - 1],
            start_packet: start as usize,
            end_packet: end as usize,
        };
        let rest = spec_plan_from(tl, target, end, tl[end - 1]);
        assert(cs == seq![c] + rest);
        assert(cs[0] == c);
        lemma_plan_from_partition(tl, target, end, tl[end - 1]);
        assert forall|k: int| 1 <= k < cs.len() implies cs[k] == rest[k - 1] by {
            assert(cs[k] == (seq![c] + rest)[k]);
        }
        assert forall|k1: int, k2: int| 0 <= k1 < k2 < cs.len() implies (
        #[trigger] cs[k1]).end_packet <= (#[trigger] cs[k2]).start_packet by {
            assert(cs[k2] == rest[k2 - 1]);
            if k1 == 0 {
                assert(end <= rest[k2 - 1].start_packet);
            } else {
                assert(cs[k1] == rest[k1 - 1]);
            }
        }
    }
}

/// Membership: packet `p` of the suffix falls inside some chunk of the
/// suffix plan.
proof fn lemma_plan_from_member(tl: Seq<u64>, target: u64, start: int, start_time: u64, p: int)
    requires
        tl.len() <= usize::MAX,
        0 <= start <= p < tl.len(),
    ensures
        ({
            let cs = spec_plan_from(tl, target, start, start_time);
            exists|k: int|
                0 <= k < cs.len() && (#[trigger] cs[k]).start_packet <= p < cs[k].end_packet
        }),
    decreases tl.len() - start,
{
    let cs = spec_plan_from(tl, target, start, start_time);
    let tend = start_time + target;
    let end = advance_end(tl, start + 1, tend);
    lemma_advance_end_bounds(tl, start + 1, tend);
    let c = ChunkInfo {
        start_time: start_time,
        end_time: tl[end - 1],
        start_packet: start as usize,
        end_packet: end as usize,
    };
    let rest = spec_plan_from(tl, target, end, tl[end - 1]);
    assert(cs == seq![c] + rest);
    assert(cs[0] == c);
    if p < end {
        assert(0 <= 0 < cs.len() && cs[0].start_packet <= p < cs[0].end_packet);
    } else {
        lemma_plan_from_member(tl, target, end, tl[end - 1], p);
        let k0 = choose|k0: int|
            0 <= k0 < rest.len() && (#[trigger] rest[k0]).start_packet <= p < rest[k0].end_packet;
        assert(cs[k0 + 1] == (seq![c] + rest)[k0 + 1]);
        assert(cs[k0 + 1] == rest[k0]);
        assert(0 <= k0 + 1 < cs.len() && cs[k0 + 1].start_packet <= p < cs[k0 + 1].end_packet);
    }
}

/// No packet is covered twice: the ranges of distinct chunks of the plan
/// are disjoint.
pub proof fn lemma_plan_disjoint(tl: Seq<u64>, target: u64)
    requires
        0 < tl.len() <= usize::MAX,
    ensures
        ({
            let cs = spec_plan(tl, target);
            forall|k1: int, k2: int|
                0 <= k1 < k2 < cs.len() ==> (#[trigger] cs[k1]).end_packet <= (
                #[trigger] cs[k2]).start_packet
        }),
{
    lemma_plan_from_partition(tl, target, 0, 0);
}

/// No packet is left out: every packet index falls inside the range of
/// some chunk of the plan. Together with `lemma_plan_disjoint`, every
/// packet is covered exactly once.
pub proof fn lemma_plan_member(tl: Seq<u64>, target: u64, p: int)
    requires
        tl.len() <= usize::MAX,
        0 <= p < tl.len(),
    ensures
        ({
            let cs = spec_plan(tl, target);
            exists|k: int|
                0 <= k < cs.len() && (#[trigger] cs[k]).start_packet <= p < cs[k].end_packet
        }),
{
    lemma_plan_from_member(tl, target, 0, 0, p);
    let cs = spec_plan(tl, target);
    let k0 = choose|k: int|
        0 <= k < spec_plan_from(tl, target, 0, 0).len() && (#[trigger] spec_plan_from(
            tl,
            target,
            0,
            0,
        )[k]).start_packet <= p < spec_plan_from(tl, target, 0, 0)[k].end_packet;
    assert(0 <= k0 < cs.len() && cs[k0].start_packet <= p < cs[k0].end_packet);
}

/// Duration bounds: every chunk except the last lasts at least the target;
/// and no chunk overshoots the target by more than the duration of its own
/// last packet (a single over-long packet legitimately makes its chunk longer
/// than the target, since frames cannot be split).
pub proof fn lemma_plan_durations(tl: Seq<u64>, target: u64)
    requires
        0 < tl.len() <= usize::MAX,
        timeline_monotone(tl),
    ensures
        ({
            let cs = spec_plan(tl, target);
            &&& forall|k: int|
                0 <= k < cs.len() - 1 ==> (#[trigger] cs[k]).end_time - cs[k].start_time
                    >= target
            &&& forall|k: int|
                0 <= k < cs.len() ==> (#[trigger] cs[k]).end_time - cs[k].start_time <= target
                    + packet_duration(tl, cs[k].end_packet - 1)
            &&& forall|k: int|
                0 <= k < cs.len() ==> (#[trigger] cs[k]).end_time >= cs[k].start_time
        }),
{
    lemma_plan_from_shape(tl, target, 0, 0);
    let cs = spec_plan(tl, target);
    assert forall|k: int| 0 <= k < cs.len() - 1 implies (#[trigger] cs[k]).end_time - cs[k].start_time >= target by {
        assert(cs[k].end_packet == cs[k + 1].start_packet);
        assert(cs[k + 1].start_packet < cs[k + 1].end_packet <= tl.len());
    }
    assert forall|k: int| 0 <= k < cs.len() implies (#[trigger] cs[k]).end_time - cs[k].start_time <= target + packet_duration(tl, cs[k].end_packet - 1) by {
        let sp = cs[k].start_packet as int;
        let ep = cs[k].end_packet as int;
        if sp + 1 < ep {
            assert(tl[ep - 2] < cs[k].start_time + target);
        } else {
            assert(ep == sp + 1);
        }
    }
}

/// Recursive sum of the durations of a chunk list.
pub open spec fn sum_durations(cs: Seq<ChunkInfo>) -> int
    decreases cs.len(),
{
    if cs.len() == 0 {
        0
    } else {
        (cs[0].end_time - cs[0].start_time) + sum_durations(cs.drop_first())
    }
}

/// Inductive step of the sum law: a suffix plan's durations sum to the time
/// remaining after its starting time.
proof fn lemma_plan_from_sum(tl: Seq<u64>, target: u64, start: int, start_time: u64)
    requires
        tl.len() <= usize::MAX,
        0 <= start < tl.len(),
    ensures
        sum_durations(spec_plan_from(tl, target, start, start_time)) == tl[tl.len() - 1]
            - start_time,
    decreases tl.len() - start,
{
    let tend = start_time + target;
    let end = advance_end(tl, start + 1, tend);
    lemma_advance_end_bounds(tl, start + 1, tend);
    let c = ChunkInfo {
        start_time: start_time,
        end_time: tl[end - 1],
        start_packet: start as usize,
        end_packet: end as usize,
    };
    let cs = spec_plan_from(tl, target, start, start_time);
    let rest = spec_plan_from(tl, target, end, tl[end - 1]);
    assert(cs == seq![c] + rest);
    assert(cs[0] == c);
    assert(cs.drop_first() =~= rest);
    if end == tl.len() {
        assert(rest == Seq::<ChunkInfo>::empty());
        assert(sum_durations(rest) == 0);
    } else {
        lemma_plan_from_sum(tl, target, end, tl[end - 1]);
    }
    assert(sum_durations(cs) == (cs[0].end_time - cs[0].start_time) + sum_durations(
        cs.drop_first(),
    ));
}

/// Sum law: the durations of all chunks of a plan add up exactly to the total
/// stream duration, the last cumulative time of the timeline.
pub proof fn lemma_plan_sum(tl: Seq<u64>, target: u64)
    requires
        0 < tl.len() <= usize::MAX,
    ensures
        sum_durations(spec_plan(tl, target)) == tl[tl.len() - 1],
{
    lemma_plan_from_sum(tl, target, 0, 0);
}

/// Determinism: the plan is a pure function of the timeline and the target,
/// so equal inputs always yield the identical chunk list. Together with
/// `plan_chunks`' postcondition this pins the executable planner down to one
/// output per input.
pub proof fn lemma_plan_deterministic(tl1: Seq<u64>, tl2: Seq<u64>, target1: u64, target2: u64)
    requires
        tl1 == tl2,
        target1 == target2,
    ensures
        spec_plan(tl1, target1) == spec_plan(tl2, target2),
{
}

/// Partition the packets of a non-empty timeline into chunks of roughly
/// `target` nanoseconds each. The result is exactly the plan that
/// `spec_plan` describes: contiguous, exhaustive, never empty, and a pure
/// function of the inputs.
pub fn plan_chunks(timeline: &Vec<u64>, target: u64) -> (chunks: Vec<ChunkInfo>)
    requires
        timeline@.len() > 0,
        target > 0,
    ensures
        chunks@ == spec_plan(timeline@, target),
{
    let n = timeline.len();
    let mut chunks: Vec<ChunkInfo> = Vec::new();
    let mut start: usize = 0;
    let mut start_time: u64 = 0;
    while start < n
        invariant
            n == timeline@.len(),
            start <= n,
            spec_plan(timeline@, target) == chunks@ + spec_plan_from(
                timeline@,
                target,
                start as int,
                start_time,
            ),
        decreases n - start,
    {
        let target_end: u128 = start_time as u128 + target as u128;
        let ghost tend: int = start_time + target;
        let mut end: usize = start + 1;
        while end < n && (timeline[end - 1] as u128) < target_end
            invariant
                n == timeline@.len(),
                start < n,
                start + 1 <= end <= n,
                tend == start_time + target,
                target_end == tend,
                advance_end(timeline@, end as int, tend) == advance_end(
                    timeline@,
                    start + 1,
                    tend,
                ),
            decreases n - end,
        {
            end = end + 1;
        }
        assert(advance_end(timeline@, end as int, tend) == end as int);
        let end_time = timeline[end - 1];
        let c = ChunkInfo { start_time, end_time, start_packet: start, end_packet: end };
        proof {
            let tl = timeline@;
            assert(spec_plan_from(tl, target, start as int, start_time) == seq![c]
                + spec_plan_from(tl, target, end as int, end_time));
            assert(chunks@ + spec_plan_from(tl, target, start as int, start_time) == (chunks@
                + seq![c]) + spec_plan_from(tl, target, end as int, end_time)) by {
                assert(chunks@ + (seq![c] + spec_plan_from(tl, target, end as int, end_time))
                    =~= (chunks@ + seq![c]) + spec_plan_from(tl, target, end as int, end_time));
            }
        }
        chunks.push(c);
        start = end;
        start_time = end_time;
    }
    proof {
        assert(chunks@ + spec_plan_from(timeline@, target, start as int, start_time) =~= chunks@);
    }
    chunks
}

} // verus!
