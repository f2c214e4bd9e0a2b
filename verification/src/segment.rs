//! Segmentation of logical packets into tunnel frames for one path payload
//! size (MPS) snapshot.

use vstd::prelude::*;

use crate::frame::{
    law_segment_count_covers, law_segment_round_trip, segment_check, spec_decode, DecodeError,
    FrameView,
    ceil_div, encode_segment_prefix, segment_count, segment_prefix_bytes, spec_segment_count,
    SegmentHeader, KIND_SINGLE, MAX_LOGICAL_LEN, MAX_SEGMENTS, MIN_SEGMENT_PAYLOAD,
    SEGMENT_OVERHEAD, SINGLE_OVERHEAD,
};
use crate::pool::PacketPool;

verus! {

/// Segmentation plan for a logical packet at one MPS snapshot.
#[derive(Debug, Clone, Copy, PartialEq, Eq, Structural)]
pub enum SegmentPlan {
    /// Fits in one DATAGRAM (plus 1-byte prefix).
    Single,
    /// Split into `count` segments of at most `seg_cap` payload bytes.
    Segmented { count: usize, seg_cap: usize },
    /// Degenerate path (no useful segment fits).
    Impossible,
}

/// Segment payload room at `mps`, when it is at least the minimum payload.
pub open spec fn spec_usable_seg_cap(mps: int) -> Option<int> {
    if mps >= SEGMENT_OVERHEAD && mps - SEGMENT_OVERHEAD >= MIN_SEGMENT_PAYLOAD {
        Some(mps - SEGMENT_OVERHEAD)
    } else {
        None
    }
}

/// The plan for a logical packet of `total` bytes at `mps`.
pub open spec fn spec_plan(total: int, mps: int) -> SegmentPlan {
    if total == 0 || total > MAX_LOGICAL_LEN {
        SegmentPlan::Impossible
    } else if total + SINGLE_OVERHEAD <= mps {
        SegmentPlan::Single
    } else {
        match spec_usable_seg_cap(mps) {
            Some(cap) => {
                let c = ceil_div(total, cap);
                let count = if c < 2 { 2 } else { c };
                if count > MAX_SEGMENTS {
                    SegmentPlan::Impossible
                } else {
                    SegmentPlan::Segmented { count: count as usize, seg_cap: cap as usize }
                }
            },
            None => SegmentPlan::Impossible,
        }
    }
}

pub fn usable_seg_cap(mps: usize) -> (r: Option<usize>)
    ensures
        r matches Some(c) ==> spec_usable_seg_cap(mps as int) == Some(c as int),
        r is None ==> spec_usable_seg_cap(mps as int) is None,
{
    let cap = match mps.checked_sub(SEGMENT_OVERHEAD) {
        Some(c) => c,
        None => return None,
    };
    if cap >= MIN_SEGMENT_PAYLOAD {
        Some(cap)
    } else {
        None
    }
}

/// Pure sizing decision: single when it fits, else uniform segments;
/// impossible when the path cannot carry even minimal segments.
pub fn plan_for_mps(total: usize, mps: usize) -> (p: SegmentPlan)
    ensures
        p == spec_plan(total as int, mps as int),
{
    if total == 0 || total > MAX_LOGICAL_LEN {
        return SegmentPlan::Impossible;
    }
    if total + SINGLE_OVERHEAD <= mps {
        return SegmentPlan::Single;
    }
    match usable_seg_cap(mps) {
        Some(seg_cap) => {
            let c = (total + seg_cap - 1) / seg_cap;
            let count = if c < 2 { 2 } else { c };
            if count > MAX_SEGMENTS {
                SegmentPlan::Impossible
            } else {
                SegmentPlan::Segmented { count, seg_cap }
            }
        },
        None => SegmentPlan::Impossible,
    }
}

/// Segment count a fresh transmit cursor starts with: the needed count, or
/// one when no count can be computed.
pub fn cursor_count(total: usize, mps: usize) -> (c: usize)
    ensures
        spec_segment_count(total as int, mps as int) matches Some(n) ==> c == if n < 1 { 1 } else { n },
        spec_segment_count(total as int, mps as int) is None ==> c == 1,
{
    match segment_count(total, mps) {
        Some(n) => if n < 1 { 1 } else { n },
        None => 1,
    }
}

/// Stage a logical packet as a single frame in a pooled buffer.
pub fn stage_single(pool: &mut PacketPool, payload: &[u8]) -> (frame: Vec<u8>)
    requires
        old(pool).wf(),
        payload@.len() < usize::MAX,
    ensures
        final(pool).wf(),
        frame@ == seq![KIND_SINGLE] + payload@,
{
    let mut buf = pool.acquire(payload.len() + SINGLE_OVERHEAD);
    buf.push(KIND_SINGLE);
    let mut i: usize = 0;
    while i < payload.len()
        invariant
            i <= payload@.len(),
            buf@ == seq![KIND_SINGLE] + payload@.take(i as int),
        decreases payload@.len() - i,
    {
        buf.push(payload[i]);
        i += 1;
        assert(payload@.take(i as int) == payload@.take(i - 1) + seq![payload@[i - 1]]);
    }
    assert(payload@.take(i as int) == payload@);
    buf
}

/// The frame without its single-frame prefix, when it has one and carries a
/// payload; the frame unchanged otherwise.
pub open spec fn spec_strip_single_prefix(frame: Seq<u8>) -> Seq<u8> {
    if frame.len() > 1 && frame[0] == KIND_SINGLE {
        frame.drop_first()
    } else {
        frame
    }
}

/// Remove the single-frame prefix, returning the logical payload.
pub fn strip_single_prefix(frame: Vec<u8>) -> (r: Vec<u8>)
    ensures
        r@ == spec_strip_single_prefix(frame@),
{
    if frame.len() > 1 && frame[0] == KIND_SINGLE {
        let mut frame = frame;
        frame.remove(0);
        frame
    } else {
        frame
    }
}

/// Bytes of segment `index` of a logical packet cut into `seg_cap`-byte pieces.
pub open spec fn segment_payload(packet: Seq<u8>, index: int, seg_cap: int) -> Seq<u8> {
    let off = index * seg_cap;
    let end = if off + seg_cap < packet.len() { off + seg_cap } else { packet.len() as int };
    packet.subrange(off, end)
}

/// The frame for segment `index`: header then that segment's bytes.
pub open spec fn spec_segment_frame(
    packet: Seq<u8>,
    frame_id: u32,
    index: int,
    count: int,
    seg_cap: int,
) -> Seq<u8> {
    segment_prefix_bytes(
        SegmentHeader {
            id: frame_id,
            index: index as u16,
            count: count as u16,
            total: packet.len() as u16,
        },
    ) + segment_payload(packet, index, seg_cap)
}

/// Encode segment `index` of a logical packet (one step of a segmented
/// transmit). `None` when the segment would start at or beyond the end of the
/// packet (the transmit is then dropped as too large).
pub fn segment_frame(
    pool: &mut PacketPool,
    packet: &[u8],
    frame_id: u32,
    index: usize,
    count: usize,
    seg_cap: usize,
) -> (r: Option<Vec<u8>>)
    requires
        old(pool).wf(),
        packet@.len() <= MAX_LOGICAL_LEN,
        index < count <= MAX_SEGMENTS,
        1 <= seg_cap <= MAX_LOGICAL_LEN,
    ensures
        final(pool).wf(),
        (index * seg_cap >= packet@.len()) <==> r is None,
        r matches Some(f) ==> f@ == spec_segment_frame(
            packet@,
            frame_id,
            index as int,
            count as int,
            seg_cap as int,
        ),
{
    let total = packet.len();
    assert(index * seg_cap <= MAX_SEGMENTS * MAX_LOGICAL_LEN) by (nonlinear_arith)
        requires
            index < MAX_SEGMENTS,
            seg_cap <= MAX_LOGICAL_LEN,
    ;
    let off = index * seg_cap;
    let end = if off + seg_cap < total { off + seg_cap } else { total };
    if off >= total || end <= off {
        return None;
    }
    let h = SegmentHeader {
        id: frame_id,
        index: index as u16,
        count: count as u16,
        total: total as u16,
    };
    let mut buf = pool.acquire(end - off + SEGMENT_OVERHEAD);
    let mut k: usize = 0;
    while k < SEGMENT_OVERHEAD
        invariant
            k <= SEGMENT_OVERHEAD,
            buf@.len() == k,
        decreases SEGMENT_OVERHEAD - k,
    {
        buf.push(0);
        k += 1;
    }
    encode_segment_prefix(buf.as_mut_slice(), h);
    assert(buf@ == segment_prefix_bytes(h)) by {
        assert(buf@ =~= buf@.take(11));
    }
    let mut i = off;
    while i < end
        invariant
            off <= i <= end <= packet@.len(),
            buf@ == segment_prefix_bytes(h) + packet@.subrange(off as int, i as int),
        decreases end - i,
    {
        buf.push(packet[i]);
        i += 1;
        assert(packet@.subrange(off as int, i as int) == packet@.subrange(off as int, i - 1)
            + seq![packet@[i - 1]]);
    }
    Some(buf)
}


/// Removing the single-frame prefix gives back the staged logical packet.
pub proof fn law_strip_undoes_stage(packet: Seq<u8>)
    requires
        packet.len() >= 1,
    ensures
        spec_strip_single_prefix(seq![KIND_SINGLE] + packet) == packet,
{
    assert((seq![KIND_SINGLE] + packet).drop_first() =~= packet);
}

/// The planner and the segment counter agree: a packet is sent as one frame
/// exactly when one segment suffices, and a segmented plan uses the counted
/// number of segments.
pub proof fn law_plan_agrees_with_segment_count(total: int, mps: int)
    requires
        0 <= total,
        0 <= mps,
    ensures
        spec_plan(total, mps) == SegmentPlan::Single <==> spec_segment_count(total, mps) == Some(
            1int,
        ),
        spec_plan(total, mps) matches SegmentPlan::Segmented { count, seg_cap } ==> {
            &&& spec_segment_count(total, mps) == Some(count as int)
            &&& seg_cap == mps - SEGMENT_OVERHEAD
            &&& 2 <= count <= MAX_SEGMENTS
        },
{
    if total > 0 && total <= MAX_LOGICAL_LEN && total + SINGLE_OVERHEAD > mps {
        if let Some(cap) = spec_usable_seg_cap(mps) {
            let c = ceil_div(total, cap);
            assert(c >= 2) by (nonlinear_arith)
                requires
                    cap > 0,
                    total > cap,
                    c == (total + cap - 1) / cap,
            ;
        }
    }
}

/// A smaller path payload size never needs fewer segments.
pub proof fn law_shrinking_path_never_reduces_segments(total: int, mps1: int, mps2: int)
    requires
        mps2 <= mps1,
        spec_plan(total, mps1) matches SegmentPlan::Segmented { .. },
        spec_plan(total, mps2) matches SegmentPlan::Segmented { .. },
    ensures
        spec_plan(total, mps1)->count <= spec_plan(total, mps2)->count,
{
    let cap1 = mps1 - SEGMENT_OVERHEAD;
    let cap2 = mps2 - SEGMENT_OVERHEAD;
    assert((total + cap1 - 1) / cap1 <= (total + cap2 - 1) / cap2) by (nonlinear_arith)
        requires
            0 < cap2 <= cap1,
            total > 0,
    {
        vstd::arithmetic::div_mod::lemma_div_is_ordered_by_denominator(total + cap2 - 1, cap2, cap1);
        vstd::arithmetic::div_mod::lemma_div_is_ordered(total + cap2 - 1, total + cap1 - 1, cap1);
    }
}

/// Concatenation of the payloads of segments `0..n`.
pub open spec fn joined_segments(packet: Seq<u8>, n: int, seg_cap: int) -> Seq<u8>
    decreases n,
{
    if n <= 0 {
        Seq::empty()
    } else {
        joined_segments(packet, n - 1, seg_cap) + segment_payload(packet, n - 1, seg_cap)
    }
}

proof fn lemma_joined_is_prefix(packet: Seq<u8>, n: int, seg_cap: int)
    requires
        n >= 0,
        seg_cap > 0,
        (n - 1) * seg_cap < packet.len() || n == 0,
    ensures
        joined_segments(packet, n, seg_cap) == packet.take(
            if n * seg_cap < packet.len() { n * seg_cap } else { packet.len() as int },
        ),
    decreases n,
{
    if n > 0 {
        assert((n - 1) * seg_cap == n * seg_cap - seg_cap) by (nonlinear_arith);
        assert((n - 2) * seg_cap < packet.len() || n - 1 == 0) by (nonlinear_arith)
            requires
                (n - 1) * seg_cap < packet.len(),
                seg_cap > 0,
                n >= 1,
        ;
        lemma_joined_is_prefix(packet, n - 1, seg_cap);
        assert(joined_segments(packet, n, seg_cap) =~= packet.take(
            if n * seg_cap < packet.len() { n * seg_cap } else { packet.len() as int },
        ));
    }
}

/// Every frame of a segmented plan decodes to its header and its piece of
/// the packet, and the pieces, joined in index order, are the packet.
pub proof fn law_segmented_plan_reassembles(packet: Seq<u8>, mps: int, frame_id: u32)
    requires
        spec_plan(packet.len() as int, mps) matches SegmentPlan::Segmented { .. },
    ensures
        ({
            let plan = spec_plan(packet.len() as int, mps);
            let count = plan->count as int;
            let cap = plan->seg_cap as int;
            &&& joined_segments(packet, count, cap) == packet
            &&& forall|i: int|
                0 <= i < count ==> #[trigger] spec_decode(
                    spec_segment_frame(packet, frame_id, i, count, cap),
                ) == Ok::<FrameView, DecodeError>(
                    FrameView::Segment(
                        SegmentHeader {
                            id: frame_id,
                            index: i as u16,
                            count: count as u16,
                            total: packet.len() as u16,
                        },
                        segment_payload(packet, i, cap),
                    ),
                )
        }),
{
    let total = packet.len() as int;
    let plan = spec_plan(total, mps);
    let count = plan->count as int;
    let cap = plan->seg_cap as int;
    law_plan_agrees_with_segment_count(total, mps);
    law_segment_count_covers(total, mps);
    assert(count * cap >= total);
    lemma_joined_is_prefix(packet, count, cap);
    assert(packet.take(total) =~= packet);
    assert forall|i: int| 0 <= i < count implies #[trigger] spec_decode(
        spec_segment_frame(packet, frame_id, i, count, cap),
    ) == Ok::<FrameView, DecodeError>(
        FrameView::Segment(
            SegmentHeader {
                id: frame_id,
                index: i as u16,
                count: count as u16,
                total: packet.len() as u16,
            },
            segment_payload(packet, i, cap),
        ),
    ) by {
        let h = SegmentHeader {
            id: frame_id,
            index: i as u16,
            count: count as u16,
            total: packet.len() as u16,
        };
        let pl = segment_payload(packet, i, cap);
        assert(i * cap <= (count - 1) * cap) by (nonlinear_arith)
            requires
                i <= count - 1,
                cap > 0,
        ;
        assert(i * cap >= 0) by (nonlinear_arith)
            requires
                i >= 0,
                cap > 0,
        ;
        if i + 1 < count {
            assert((i + 1) * cap <= (count - 1) * cap) by (nonlinear_arith)
                requires
                    i + 1 <= count - 1,
                    cap > 0,
            ;
            assert((i + 1) * cap == i * cap + cap) by (nonlinear_arith);
            assert(pl.len() == cap);
        }
        assert(pl.len() >= 1);
        assert(pl.len() <= total);
        assert(segment_check(h, pl.len() as int) is None);
        law_segment_round_trip(h, pl);
    }
}

} // verus!
