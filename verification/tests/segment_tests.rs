use tunnet::frame::{decode, Frame, SegmentHeader, KIND_SINGLE, SEGMENT_OVERHEAD};
use tunnet::pool::PacketPool;
use tunnet::segment::{plan_for_mps, segment_frame, stage_single, strip_single_prefix, usable_seg_cap, SegmentPlan};

#[test]
fn plan_single_segmented_impossible() {
    assert_eq!(plan_for_mps(1200, 1201), SegmentPlan::Single);
    assert!(matches!(plan_for_mps(1201, 1201), SegmentPlan::Segmented { .. }));
    match plan_for_mps(2800, 1350) {
        SegmentPlan::Segmented { count, seg_cap } => {
            assert_eq!(count, 3);
            assert_eq!(seg_cap, 1350 - SEGMENT_OVERHEAD);
        }
        other => panic!("expected segmented, got {other:?}"),
    }
    assert_eq!(plan_for_mps(0, 1350), SegmentPlan::Impossible);
    assert_eq!(plan_for_mps(9001, 1500), SegmentPlan::Impossible);
    assert_eq!(plan_for_mps(100, 10), SegmentPlan::Impossible);
}

#[test]
fn plan_path_shrink_grows_count() {
    let total = 2800;
    let before = plan_for_mps(total, 1350);
    let after = plan_for_mps(total, 1200);
    match (before, after) {
        (SegmentPlan::Segmented { count: c1, .. }, SegmentPlan::Segmented { count: c2, .. }) => {
            assert!(c2 >= c1, "shrink must not reduce segments")
        }
        other => panic!("expected segmented plans, got {other:?}"),
    }
    assert_eq!(plan_for_mps(9000, 500), SegmentPlan::Impossible);
}

#[test]
fn single_encode_round_trip() {
    let mut pool = PacketPool::new(8);
    let payload = vec![0xABu8; 200];
    let frame = stage_single(&mut pool, &payload);
    assert_eq!(frame.len(), 201);
    assert_eq!(frame[0], KIND_SINGLE);
    let back = strip_single_prefix(frame);
    assert_eq!(&back[..], &payload[..]);
}

#[test]
fn usable_seg_cap_needs_minimum_payload() {
    assert_eq!(usable_seg_cap(1350), Some(1339));
    assert_eq!(usable_seg_cap(75), Some(64));
    assert_eq!(usable_seg_cap(74), None);
    assert_eq!(usable_seg_cap(5), None);
}

#[test]
fn segments_decode_and_reassemble_to_the_packet() {
    let mut pool = PacketPool::new(8);
    let packet: Vec<u8> = (0..2800u32).map(|i| (i % 251) as u8).collect();
    let (count, seg_cap) = match plan_for_mps(packet.len(), 1350) {
        SegmentPlan::Segmented { count, seg_cap } => (count, seg_cap),
        other => panic!("expected segmented, got {other:?}"),
    };
    let mut joined = Vec::new();
    for index in 0..count {
        let frame = segment_frame(&mut pool, &packet, 42, index, count, seg_cap).expect("segment");
        match decode(&frame).expect("decodes") {
            Frame::Segment(h, p) => {
                assert_eq!(h, SegmentHeader { id: 42, index: index as u16, count: count as u16, total: 2800 });
                joined.extend_from_slice(p);
            }
            Frame::Single(_) => panic!("segment decoded as single"),
        }
    }
    assert_eq!(joined, packet);
}

#[test]
fn pool_reuses_oldest_buffer_first_and_empties_it() {
    let mut pool = PacketPool::new(2);
    let mut small = Vec::with_capacity(100);
    small.extend_from_slice(&[1, 2, 3]);
    let big: Vec<u8> = Vec::with_capacity(5000);
    pool.release(small);
    pool.release(big);
    let first = pool.acquire(0);
    assert!(first.is_empty());
    assert!(first.capacity() >= 100 && first.capacity() < 5000);
    let second = pool.acquire(0);
    assert!(second.capacity() >= 5000);
    let fresh = pool.acquire(64);
    assert!(fresh.is_empty() && fresh.capacity() >= 64);
}
