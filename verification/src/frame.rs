//! Datagram framing: the tunnel wire format.
//!
//! ```text
//! Single:  [0x20][logical packet bytes...]                    (1 byte overhead)
//! Segment: [0x21][id u32][index u16][count u16][total u16][payload]
//!                                                         (11 bytes overhead)
//! ```
//!
//! All integers are little-endian. Kinds `0x22..=0x2F` are reserved.

use vstd::prelude::*;

verus! {

/// Largest logical (inner IP) packet carried by the tunnel.
pub const MAX_LOGICAL_LEN: usize = 9000;
/// Maximum segments per logical packet.
pub const MAX_SEGMENTS: usize = 16;
/// Minimum payload of a non-last segment.
pub const MIN_SEGMENT_PAYLOAD: usize = 64;

pub const KIND_SINGLE: u8 = 0x20;
pub const KIND_SEGMENT: u8 = 0x21;
pub const KIND_RESERVED_MAX: u8 = 0x2F;
pub const SEG_HEADER_LEN: usize = 11;

pub const SINGLE_OVERHEAD: usize = 1;
pub const SEGMENT_OVERHEAD: usize = 11;

#[derive(Debug, Clone, Copy, PartialEq, Eq, Structural)]
pub struct SegmentHeader {
    pub id: u32,
    pub index: u16,
    pub count: u16,
    pub total: u16,
}

#[derive(Debug, Clone, Copy, PartialEq, Eq)]
pub enum Frame<'a> {
    Single(&'a [u8]),
    Segment(SegmentHeader, &'a [u8]),
}

#[derive(Debug, Clone, Copy, PartialEq, Eq, Structural)]
pub enum DecodeError {
    Empty,
    UnknownKind(u8),
    ReservedKind(u8),
    TruncatedHeader,
    TruncatedPayload,
    EmptyPayload,
    BadCount,
    BadIndex,
    BadTotal,
    SingleSegment,
    OversizeSegment,
}

/// Mathematical form of a decoded frame: the payload as a byte sequence.
pub enum FrameView {
    Single(Seq<u8>),
    Segment(SegmentHeader, Seq<u8>),
}

pub open spec fn frame_view(f: Frame) -> FrameView {
    match f {
        Frame::Single(p) => FrameView::Single(p@),
        Frame::Segment(h, p) => FrameView::Segment(h, p@),
    }
}

pub open spec fn decode_result_view(r: Result<Frame, DecodeError>) -> Result<FrameView, DecodeError> {
    match r {
        Ok(f) => Ok(frame_view(f)),
        Err(e) => Err(e),
    }
}

/// Little-endian 16-bit value of two bytes.
pub open spec fn le16(b0: u8, b1: u8) -> int {
    b0 + 256 * b1
}

/// Little-endian 32-bit value of four bytes.
pub open spec fn le32(b0: u8, b1: u8, b2: u8, b3: u8) -> int {
    b0 + 256 * b1 + 65536 * b2 + 16777216 * b3
}

/// The header stored in the ten bytes that follow a segment kind byte.
pub open spec fn header_at(r: Seq<u8>) -> SegmentHeader
    recommends
        r.len() >= 10,
{
    SegmentHeader {
        id: le32(r[0], r[1], r[2], r[3]) as u32,
        index: le16(r[4], r[5]) as u16,
        count: le16(r[6], r[7]) as u16,
        total: le16(r[8], r[9]) as u16,
    }
}

/// Whether a kind byte lies in the reserved range of this wire version.
pub open spec fn is_reserved_kind(k: u8) -> bool {
    0x22 <= k <= KIND_RESERVED_MAX
}

/// The checks a segment header and its payload must pass, in the order the
/// decoder applies them.
pub open spec fn segment_check(h: SegmentHeader, payload_len: int) -> Option<DecodeError> {
    if h.count < 2 || h.count > MAX_SEGMENTS {
        Some(DecodeError::BadCount)
    } else if h.index >= h.count {
        Some(DecodeError::BadIndex)
    } else if h.total == 0 || h.total > MAX_LOGICAL_LEN {
        Some(DecodeError::BadTotal)
    } else if payload_len == 0 {
        Some(DecodeError::EmptyPayload)
    } else if h.index + 1 < h.count && payload_len < MIN_SEGMENT_PAYLOAD {
        Some(DecodeError::TruncatedPayload)
    } else if payload_len > h.total || payload_len > MAX_LOGICAL_LEN {
        Some(DecodeError::OversizeSegment)
    } else {
        None
    }
}

/// What decoding a datagram yields.
pub open spec fn spec_decode(data: Seq<u8>) -> Result<FrameView, DecodeError> {
    if data.len() == 0 {
        Err(DecodeError::Empty)
    } else {
        let kind = data[0];
        let rest = data.drop_first();
        if kind == KIND_SINGLE {
            if rest.len() == 0 {
                Err(DecodeError::EmptyPayload)
            } else if rest.len() > MAX_LOGICAL_LEN {
                Err(DecodeError::BadTotal)
            } else {
                Ok(FrameView::Single(rest))
            }
        } else if kind == KIND_SEGMENT {
            if rest.len() < SEG_HEADER_LEN - 1 {
                Err(DecodeError::TruncatedHeader)
            } else {
                let h = header_at(rest);
                let payload = rest.skip(10);
                match segment_check(h, payload.len() as int) {
                    Some(e) => Err(e),
                    None => Ok(FrameView::Segment(h, payload)),
                }
            }
        } else if is_reserved_kind(kind) {
            Err(DecodeError::ReservedKind(kind))
        } else {
            Err(DecodeError::UnknownKind(kind))
        }
    }
}

/// The eleven header bytes that encode a segment header.
pub open spec fn segment_prefix_bytes(h: SegmentHeader) -> Seq<u8> {
    seq![
        KIND_SEGMENT,
        (h.id % 256) as u8,
        ((h.id / 256) % 256) as u8,
        ((h.id / 65536) % 256) as u8,
        (h.id / 16777216) as u8,
        (h.index % 256) as u8,
        (h.index / 256) as u8,
        (h.count % 256) as u8,
        (h.count / 256) as u8,
        (h.total % 256) as u8,
        (h.total / 256) as u8,
    ]
}

fn read_le16(b0: u8, b1: u8) -> (r: u16)
    ensures
        r == le16(b0, b1),
{
    (b0 as u16) + (b1 as u16) * 256
}

fn read_le32(b0: u8, b1: u8, b2: u8, b3: u8) -> (r: u32)
    ensures
        r == le32(b0, b1, b2, b3),
{
    (b0 as u32) + (b1 as u32) * 256 + (b2 as u32) * 65536 + (b3 as u32) * 16777216
}

/// Decode a frame header and borrow its payload. No allocation.
pub fn decode(data: &[u8]) -> (r: Result<Frame<'_>, DecodeError>)
    ensures
        decode_result_view(r) == spec_decode(data@),
{
    if data.len() == 0 {
        return Err(DecodeError::Empty);
    }
    let kind = data[0];
    let rest = &data[1..data.len()];
    assert(rest@ == data@.drop_first());
    if kind == KIND_SINGLE {
        if rest.len() == 0 {
            return Err(DecodeError::EmptyPayload);
        }
        if rest.len() > MAX_LOGICAL_LEN {
            return Err(DecodeError::BadTotal);
        }
        Ok(Frame::Single(rest))
    } else if kind == KIND_SEGMENT {
        if rest.len() < SEG_HEADER_LEN - 1 {
            return Err(DecodeError::TruncatedHeader);
        }
        let id = read_le32(rest[0], rest[1], rest[2], rest[3]);
        let index = read_le16(rest[4], rest[5]);
        let count = read_le16(rest[6], rest[7]);
        let total = read_le16(rest[8], rest[9]);
        let payload = &rest[10..rest.len()];
        assert(payload@ == rest@.skip(10));
        let ghost h = header_at(rest@);
        if count < 2 || (count as usize) > MAX_SEGMENTS {
            return Err(DecodeError::BadCount);
        }
        if index >= count {
            return Err(DecodeError::BadIndex);
        }
        if total == 0 || (total as usize) > MAX_LOGICAL_LEN {
            return Err(DecodeError::BadTotal);
        }
        if payload.len() == 0 {
            return Err(DecodeError::EmptyPayload);
        }
        if index + 1 < count && payload.len() < MIN_SEGMENT_PAYLOAD {
            return Err(DecodeError::TruncatedPayload);
        }
        if payload.len() > total as usize {
            return Err(DecodeError::OversizeSegment);
        }
        if payload.len() > MAX_LOGICAL_LEN {
            return Err(DecodeError::OversizeSegment);
        }
        Ok(Frame::Segment(SegmentHeader { id, index, count, total }, payload))
    } else if kind >= 0x22 && kind <= KIND_RESERVED_MAX {
        Err(DecodeError::ReservedKind(kind))
    } else {
        Err(DecodeError::UnknownKind(kind))
    }
}

/// Encode a single frame header byte into `out[..1]`. Returns 1.
pub fn encode_single_prefix(out: &mut [u8]) -> (n: usize)
    requires
        old(out)@.len() >= 1,
    ensures
        n == SINGLE_OVERHEAD,
        final(out)@ == old(out)@.update(0, KIND_SINGLE),
{
    out[0] = KIND_SINGLE;
    1
}

/// Encode an 11-byte segment header into `out[..11]`. Returns 11.
pub fn encode_segment_prefix(out: &mut [u8], h: SegmentHeader) -> (n: usize)
    requires
        old(out)@.len() >= SEG_HEADER_LEN,
    ensures
        n == SEG_HEADER_LEN,
        final(out)@.len() == old(out)@.len(),
        final(out)@.take(11) == segment_prefix_bytes(h),
        final(out)@.skip(11) == old(out)@.skip(11),
{
    out[0] = KIND_SEGMENT;
    out[1] = (h.id % 256) as u8;
    out[2] = ((h.id / 256) % 256) as u8;
    out[3] = ((h.id / 65536) % 256) as u8;
    out[4] = (h.id / 16777216) as u8;
    out[5] = (h.index % 256) as u8;
    out[6] = (h.index / 256) as u8;
    out[7] = (h.count % 256) as u8;
    out[8] = (h.count / 256) as u8;
    out[9] = (h.total % 256) as u8;
    out[10] = (h.total / 256) as u8;
    assert(out@.take(11) =~= segment_prefix_bytes(h));
    assert(out@.skip(11) =~= old(out)@.skip(11));
    SEG_HEADER_LEN
}

/// Number of segments for `logical_len` bytes at path payload size `mps`.
pub open spec fn spec_segment_count(logical_len: int, mps: int) -> Option<int> {
    if logical_len <= 0 || logical_len > MAX_LOGICAL_LEN {
        None
    } else if mps < SINGLE_OVERHEAD {
        None
    } else if logical_len <= mps - SINGLE_OVERHEAD {
        Some(1)
    } else if mps < SEGMENT_OVERHEAD || mps - SEGMENT_OVERHEAD < MIN_SEGMENT_PAYLOAD {
        None
    } else if ceil_div(logical_len, mps - SEGMENT_OVERHEAD) > MAX_SEGMENTS {
        None
    } else {
        Some(ceil_div(logical_len, mps - SEGMENT_OVERHEAD))
    }
}

/// Rounded-up quotient.
pub open spec fn ceil_div(a: int, b: int) -> int
    recommends
        b > 0,
{
    (a + b - 1) / b
}

/// Number of segments needed for `logical_len` bytes at `mps` payload bytes
/// per DATAGRAM (accounting framing overhead). None when impossible: empty
/// or oversized packets, a path too small for any frame, or more segments
/// than a frame can announce (`MAX_SEGMENTS`).
pub fn segment_count(logical_len: usize, mps: usize) -> (r: Option<usize>)
    ensures
        r matches Some(c) ==> spec_segment_count(logical_len as int, mps as int) == Some(c as int),
        r is None ==> spec_segment_count(logical_len as int, mps as int) is None,
{
    if logical_len == 0 || logical_len > MAX_LOGICAL_LEN {
        return None;
    }
    let single_cap = match mps.checked_sub(SINGLE_OVERHEAD) {
        Some(c) => c,
        None => return None,
    };
    if logical_len <= single_cap {
        return Some(1);
    }
    let seg_cap = match mps.checked_sub(SEGMENT_OVERHEAD) {
        Some(c) => c,
        None => return None,
    };
    if seg_cap < MIN_SEGMENT_PAYLOAD {
        return None;
    }
    let count = (logical_len + seg_cap - 1) / seg_cap;
    if count > MAX_SEGMENTS {
        return None;
    }
    Some(count)
}


proof fn lemma_le16_of_split(v: u16)
    ensures
        le16((v % 256) as u8, (v / 256) as u8) == v,
{
}

proof fn lemma_le32_of_split(v: u32)
    ensures
        le32(
            (v % 256) as u8,
            ((v / 256) % 256) as u8,
            ((v / 65536) % 256) as u8,
            (v / 16777216) as u8,
        ) == v,
{
    assert(v == v % 256 + 256 * ((v / 256) % 256) + 65536 * ((v / 65536) % 256) + 16777216 * (v
        / 16777216)) by (nonlinear_arith);
}

/// An encoded segment header followed by any payload that the header admits
/// decodes to exactly that header and that payload.
pub proof fn law_segment_round_trip(h: SegmentHeader, payload: Seq<u8>)
    requires
        segment_check(h, payload.len() as int) is None,
    ensures
        spec_decode(segment_prefix_bytes(h) + payload) == Ok::<FrameView, DecodeError>(
            FrameView::Segment(h, payload),
        ),
{
    let data = segment_prefix_bytes(h) + payload;
    let rest = data.drop_first();
    lemma_le32_of_split(h.id);
    lemma_le16_of_split(h.index);
    lemma_le16_of_split(h.count);
    lemma_le16_of_split(h.total);
    assert(rest.skip(10) =~= payload);
    assert(header_at(rest) == h);
}

/// A single-frame prefix followed by a logical packet of admissible size
/// decodes to exactly that packet.
pub proof fn law_single_round_trip(packet: Seq<u8>)
    requires
        1 <= packet.len() <= MAX_LOGICAL_LEN,
    ensures
        spec_decode(seq![KIND_SINGLE] + packet) == Ok::<FrameView, DecodeError>(
            FrameView::Single(packet),
        ),
{
    assert((seq![KIND_SINGLE] + packet).drop_first() =~= packet);
}

/// Whatever the input, a successfully decoded frame is well formed: a single
/// frame carries 1..=MAX_LOGICAL_LEN bytes; a segment has 2..=MAX_SEGMENTS
/// segments, an index below the count, and a non-empty payload no longer
/// than the announced total.
pub proof fn law_decoded_frames_are_well_formed(data: Seq<u8>)
    ensures
        spec_decode(data) matches Ok(FrameView::Single(p)) ==> 1 <= p.len() <= MAX_LOGICAL_LEN,
        spec_decode(data) matches Ok(FrameView::Segment(h, p)) ==> {
            &&& 2 <= h.count <= MAX_SEGMENTS
            &&& h.index < h.count
            &&& 1 <= p.len() <= h.total
            &&& h.total <= MAX_LOGICAL_LEN
            &&& (h.index + 1 < h.count ==> p.len() >= MIN_SEGMENT_PAYLOAD)
        },
{
}

/// A decoded frame determines the datagram it came from: the wire format has
/// no two encodings of the same frame.
pub proof fn law_decode_is_unambiguous(a: Seq<u8>, b: Seq<u8>)
    requires
        spec_decode(a) is Ok,
        spec_decode(a) == spec_decode(b),
    ensures
        a == b,
{
    let ra = a.drop_first();
    let rb = b.drop_first();
    if a[0] == KIND_SINGLE {
        assert(b[0] == KIND_SINGLE);
        assert(a =~= seq![a[0]] + ra);
        assert(b =~= seq![b[0]] + rb);
    } else {
        assert(b[0] == KIND_SEGMENT);
        let h = header_at(ra);
        assert(header_at(rb) == h);
        assert(ra.skip(10) == rb.skip(10));
        assert(ra[0] == rb[0] && ra[1] == rb[1] && ra[2] == rb[2] && ra[3] == rb[3]) by {
            lemma_le32_injective(ra[0], ra[1], ra[2], ra[3], rb[0], rb[1], rb[2], rb[3]);
        }
        lemma_le16_injective(ra[4], ra[5], rb[4], rb[5]);
        lemma_le16_injective(ra[6], ra[7], rb[6], rb[7]);
        lemma_le16_injective(ra[8], ra[9], rb[8], rb[9]);
        assert(ra =~= ra.take(10) + ra.skip(10));
        assert(rb =~= rb.take(10) + rb.skip(10));
        assert(ra.take(10) =~= rb.take(10));
        assert(a =~= seq![a[0]] + ra);
        assert(b =~= seq![b[0]] + rb);
    }
}

proof fn lemma_le16_injective(a0: u8, a1: u8, b0: u8, b1: u8)
    requires
        le16(a0, a1) == le16(b0, b1),
    ensures
        a0 == b0,
        a1 == b1,
{
}

proof fn lemma_le32_injective(a0: u8, a1: u8, a2: u8, a3: u8, b0: u8, b1: u8, b2: u8, b3: u8)
    requires
        le32(a0, a1, a2, a3) == le32(b0, b1, b2, b3),
    ensures
        a0 == b0,
        a1 == b1,
        a2 == b2,
        a3 == b3,
{
}

/// When segmentation is needed, `count` segments of `mps - SEGMENT_OVERHEAD`
/// bytes cover the logical packet and one segment fewer would not.
pub proof fn law_segment_count_covers(logical_len: int, mps: int)
    requires
        spec_segment_count(logical_len, mps) matches Some(c) && c > 1,
    ensures
        ({
            let c = spec_segment_count(logical_len, mps).unwrap();
            let cap = mps - SEGMENT_OVERHEAD;
            &&& (c - 1) * cap < logical_len
            &&& logical_len <= c * cap
        }),
{
    let cap = mps - SEGMENT_OVERHEAD;
    let c = (logical_len + cap - 1) / cap;
    assert(cap > 0);
    assert((c - 1) * cap < logical_len && logical_len <= c * cap) by (nonlinear_arith)
        requires
            cap > 0,
            logical_len > 0,
            c == (logical_len + cap - 1) / cap,
    {
        assert(cap * c <= logical_len + cap - 1 < cap * c + cap);
    }
}

} // verus!
