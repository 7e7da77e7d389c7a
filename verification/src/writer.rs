//! Assembling a chunk's output bytes: the payloads of its packets,
//! concatenated verbatim, with no added framing and no re-encoding.
use vstd::prelude::*;

use crate::planner::{spec_plan, spec_plan_from, advance_end, lemma_advance_end_bounds, ChunkInfo};

verus! {

/// The payloads of a packet list, as mathematical byte sequences.
pub open spec fn payload_views(packets: Seq<Vec<u8>>) -> Seq<Seq<u8>> {
    Seq::new(packets.len(), |i: int| packets[i]@)
}

/// Concatenation of the payloads of packets `start..end`, in order.
pub open spec fn concat_range(pks: Seq<Seq<u8>>, start: int, end: int) -> Seq<u8>
    decreases end - start,
{
    if start < end {
        pks[start] + concat_range(pks, start + 1, end)
    } else {
        Seq::empty()
    }
}

/// Adjacent ranges concatenate to the whole range.
pub proof fn lemma_concat_range_split(pks: Seq<Seq<u8>>, a: int, b: int, c: int)
    requires
        a <= b <= c,
    ensures
        concat_range(pks, a, c) == concat_range(pks, a, b) + concat_range(pks, b, c),
    decreases b - a,
{
    if a < b {
        lemma_concat_range_split(pks, a + 1, b, c);
        assert(pks[a] + (concat_range(pks, a + 1, b) + concat_range(pks, b, c)) =~= (pks[a]
            + concat_range(pks, a + 1, b)) + concat_range(pks, b, c));
    } else {
        assert(concat_range(pks, a, b) + concat_range(pks, b, c) =~= concat_range(pks, b, c));
    }
}

/// The bytes that a plan writes: each chunk's packet payloads in packet
/// order, chunk after chunk.
pub open spec fn plan_bytes(pks: Seq<Seq<u8>>, cs: Seq<ChunkInfo>) -> Seq<u8>
    decreases cs.len(),
{
    if cs.len() == 0 {
        Seq::empty()
    } else {
        concat_range(pks, cs[0].start_packet as int, cs[0].end_packet as int) + plan_bytes(
            pks,
            cs.drop_first(),
        )
    }
}

/// Byte fidelity of a suffix plan: the bytes of its chunks are exactly the
/// payloads of the packets it covers.
proof fn lemma_plan_from_bytes(
    pks: Seq<Seq<u8>>,
    tl: Seq<u64>,
    target: u64,
    start: int,
    start_time: u64,
)
    requires
        pks.len() == tl.len() <= usize::MAX,
        0 <= start <= tl.len(),
    ensures
        plan_bytes(pks, spec_plan_from(tl, target, start, start_time)) == concat_range(
            pks,
            start,
            tl.len() as int,
        ),
    decreases tl.len() - start,
{
    let cs = spec_plan_from(tl, target, start, start_time);
    if start == tl.len() {
        assert(cs == Seq::<ChunkInfo>::empty());
    } else {
        let tend = start_time + target;
        let end = advance_end(tl, start + 1, tend);
        lemma_advance_end_bounds(tl, start + 1, tend);
        let c = ChunkInfo {
            start_time: start_time,
            end_time: tl[end - 1],
            start_packet: start as usize,
            end_packet: end as usize,
        };
        let rest = spec_plan_from(tl, target, end, tl[end - 1]);
        assert(cs == seq![c] + rest);
        assert(cs[0] == c);
        assert(cs.drop_first() =~= rest);
        lemma_plan_from_bytes(pks, tl, target, end, tl[end - 1]);
        lemma_concat_range_split(pks, start, end, tl.len() as int);
        assert(plan_bytes(pks, cs) == concat_range(pks, start, end) + plan_bytes(pks, rest));
    }
}

/// Byte fidelity: concatenating all chunks' bytes in chunk order reproduces
/// the concatenation of all packet payloads in original order — a pure
/// partition, nothing lost, nothing duplicated.
pub proof fn lemma_plan_bytes_fidelity(pks: Seq<Seq<u8>>, tl: Seq<u64>, target: u64)
    requires
        pks.len() == tl.len() <= usize::MAX,
    ensures
        plan_bytes(pks, spec_plan(tl, target)) == concat_range(pks, 0, pks.len() as int),
{
    lemma_plan_from_bytes(pks, tl, target, 0, 0);
}

/// Collect the output bytes of one chunk: the payloads of packets
/// `start..end`, concatenated in order.
pub fn chunk_bytes(packets: &Vec<Vec<u8>>, start: usize, end: usize) -> (out: Vec<u8>)
    requires
        start <= end <= packets@.len(),
    ensures
        out@ == concat_range(payload_views(packets@), start as int, end as int),
{
    let ghost pks = payload_views(packets@);
    let mut out: Vec<u8> = Vec::new();
    let mut i: usize = start;
    proof {
        assert(concat_range(pks, start as int, start as int) =~= Seq::<u8>::empty());
    }
    while i < end
        invariant
            start <= i <= end <= packets@.len(),
            pks == payload_views(packets@),
            out@ == concat_range(pks, start as int, i as int),
        decreases end - i,
    {
        let packet = &packets[i];
        let mut j: usize = 0;
        while j < packet.len()
            invariant
                i < end <= packets@.len(),
                j <= packet@.len(),
                packet@ == packets@[i as int]@,
                pks == payload_views(packets@),
                out@ == concat_range(pks, start as int, i as int) + packet@.subrange(
                    0,
                    j as int,
                ),
            decreases packet@.len() - j,
        {
            out.push(packet[j]);
            proof {
                assert(packet@.subrange(0, j + 1) =~= packet@.subrange(0, j as int).push(
                    packet@[j as int],
                ));
            }
            j = j + 1;
        }
        proof {
            assert(packet@.subrange(0, packet@.len() as int) =~= packet@);
            lemma_concat_range_split(pks, start as int, i as int, i + 1);
            assert(concat_range(pks, i + 1, i + 1) =~= Seq::<u8>::empty());
            assert(concat_range(pks, i as int, i + 1) =~= pks[i as int]);
            assert(out@ =~= concat_range(pks, start as int, i + 1));
        }
        i = i + 1;
    }
    out
}

} // verus!
