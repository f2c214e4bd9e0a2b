use tunnet::frame::{
    decode, encode_segment_prefix, encode_single_prefix, segment_count, DecodeError, Frame,
    SegmentHeader, KIND_SEGMENT, KIND_SINGLE,
};

#[test]
fn single_round_trip() {
    let mut buf = [0u8; 64];
    assert_eq!(encode_single_prefix(&mut buf), 1);
    buf[1..6].copy_from_slice(b"hello");
    match decode(&buf[..6]).unwrap() {
        Frame::Single(p) => assert_eq!(p, b"hello"),
        _ => panic!("expected single"),
    }
}

#[test]
fn segment_round_trip() {
    let mut buf = [0u8; 1024];
    let h = SegmentHeader { id: 0xdead_beef, index: 2, count: 5, total: 4000 };
    assert_eq!(encode_segment_prefix(&mut buf, h), 11);
    buf[11..11 + 800].fill(0xAB);
    match decode(&buf[..11 + 800]).unwrap() {
        Frame::Segment(got, p) => {
            assert_eq!(got, h);
            assert_eq!(p.len(), 800);
        }
        _ => panic!("expected segment"),
    }
    let last = SegmentHeader { index: 4, ..h };
    assert_eq!(encode_segment_prefix(&mut buf, last), 11);
    buf[11..16].copy_from_slice(b"world");
    match decode(&buf[..16]).unwrap() {
        Frame::Segment(got, p) => {
            assert_eq!(got, last);
            assert_eq!(p, b"world");
        }
        _ => panic!("expected segment"),
    }
}

#[test]
fn rejects_garbage_before_allocation() {
    assert_eq!(decode(&[]), Err(DecodeError::Empty));
    assert_eq!(decode(&[0x99]), Err(DecodeError::UnknownKind(0x99)));
    assert_eq!(decode(&[0x22]), Err(DecodeError::ReservedKind(0x22)));
    assert_eq!(decode(&[KIND_SINGLE]), Err(DecodeError::EmptyPayload));
    assert_eq!(decode(&[KIND_SEGMENT]), Err(DecodeError::TruncatedHeader));
    assert_eq!(decode(&[KIND_SEGMENT, 1, 2, 3]), Err(DecodeError::TruncatedHeader));
    let mut bad = [0u8; 16];
    encode_segment_prefix(&mut bad, SegmentHeader { id: 1, index: 0, count: 1, total: 100 });
    assert_eq!(decode(&bad[..16]), Err(DecodeError::BadCount));
    encode_segment_prefix(&mut bad, SegmentHeader { id: 1, index: 0, count: 99, total: 100 });
    assert_eq!(decode(&bad[..16]), Err(DecodeError::BadCount));
    encode_segment_prefix(&mut bad, SegmentHeader { id: 1, index: 3, count: 3, total: 300 });
    bad[11] = 7;
    assert_eq!(decode(&bad[..12]), Err(DecodeError::BadIndex));
}

#[test]
fn rejects_bad_totals_and_tiny_segments() {
    let mut buf = [0u8; 80];
    encode_segment_prefix(&mut buf, SegmentHeader { id: 1, index: 0, count: 2, total: 0 });
    buf[11] = 1;
    assert_eq!(decode(&buf[..12]), Err(DecodeError::BadTotal));
    encode_segment_prefix(&mut buf, SegmentHeader { id: 1, index: 0, count: 2, total: 9001 });
    assert_eq!(decode(&buf[..12]), Err(DecodeError::BadTotal));
    encode_segment_prefix(&mut buf, SegmentHeader { id: 1, index: 0, count: 3, total: 3000 });
    buf[11] = 1;
    assert_eq!(decode(&buf[..12]), Err(DecodeError::TruncatedPayload));
    encode_segment_prefix(&mut buf, SegmentHeader { id: 1, index: 2, count: 3, total: 3000 });
    assert_eq!(decode(&buf[..11]), Err(DecodeError::EmptyPayload));
}

#[test]
fn segment_count_boundaries() {
    assert_eq!(segment_count(1200, 1201), Some(1));
    assert_eq!(segment_count(1201, 1201), Some(2));
    assert_eq!(segment_count(0, 1200), None);
    assert_eq!(segment_count(9001, 1500), None);
    assert_eq!(segment_count(2800, 1350), Some(3));
    assert_eq!(segment_count(100, 10), None);
    assert_eq!(segment_count(9000, 500), None);
    assert_eq!(segment_count(9000, 600), Some(16));
}

#[test]
fn deterministic_encoding() {
    let h = SegmentHeader { id: 7, index: 1, count: 4, total: 5000 };
    let mut a = [0u8; 11];
    let mut b = [0u8; 11];
    encode_segment_prefix(&mut a, h);
    encode_segment_prefix(&mut b, h);
    assert_eq!(a, b);
    assert_eq!(a[0], KIND_SEGMENT);
}

#[test]
fn segment_header_fields_are_little_endian() {
    let mut buf = [0u8; 11];
    let h = SegmentHeader { id: 0x0403_0201, index: 0x0605, count: 0x0807, total: 0x0a09 };
    assert_eq!(encode_segment_prefix(&mut buf, h), 11);
    assert_eq!(buf, [KIND_SEGMENT, 1, 2, 3, 4, 5, 6, 7, 8, 9, 10]);
}

#[test]
fn single_frame_over_logical_limit_is_refused() {
    let mut buf = vec![0u8; 9002];
    buf[0] = KIND_SINGLE;
    assert_eq!(decode(&buf), Err(DecodeError::BadTotal));
    assert!(decode(&buf[..9001]).is_ok());
}
