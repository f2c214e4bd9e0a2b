use tunnet::flow::{FlowKey, IpAddress};
use tunnet::meta::PacketBuf;
use tunnet::qos::{
    DropReason, PeerState, QueuedPacket, PEER_BYTE_CAP, PEER_PACKET_CAP, SOJOURN_CEILING,
};

const NOW: u64 = 1_000_000_000_000;

fn queued(n: usize) -> QueuedPacket {
    QueuedPacket::new(vec![0u8; n], NOW)
}

fn flow(a: u8, sport: u16) -> FlowKey {
    FlowKey {
        src: IpAddress::V4(u32::from_be_bytes([10, 0, 0, a])),
        dst: IpAddress::V4(u32::from_be_bytes([10, 0, 0, 99])),
        proto: 6,
        sport,
        dport: 443,
    }
}

#[test]
fn per_flow_order_preserved() {
    let mut state = PeerState::new();
    for i in 0..5usize {
        assert!(state.enqueue(flow(1, 1111), queued(100 + i), NOW).is_none());
    }
    let mut sizes = Vec::new();
    while let Some((f, p)) = state.dequeue_next(NOW) {
        assert_eq!(f, flow(1, 1111));
        sizes.push(p.len);
        state.complete_send(p.len);
    }
    assert_eq!(sizes.len(), 5);
    assert_eq!(sizes, vec![100, 101, 102, 103, 104]);
}

#[test]
fn sparse_flow_jumps_bulk_backlog() {
    let mut state = PeerState::new();
    let bulk = flow(1, 1111);
    for _ in 0..20 {
        assert!(state.enqueue(bulk, queued(1200), NOW).is_none());
    }
    state.end_sparse_epoch(bulk);
    let sparse = flow(2, 2222);
    assert!(state.enqueue(sparse, queued(100), NOW).is_none());
    let (first, _) = state.dequeue_next(NOW).expect("packet");
    assert_eq!(first, sparse, "sparse flow must jump the bulk backlog");
}

#[test]
fn byte_drr_no_starvation() {
    let mut state = PeerState::new();
    let a = flow(1, 1111);
    let b = flow(2, 2222);
    for f in [a, b] {
        for _ in 0..4 {
            assert!(state.enqueue(f, queued(1200), NOW).is_none());
        }
        state.end_sparse_epoch(f);
    }
    let mut seen_a = 0;
    let mut seen_b = 0;
    while let Some((f, p)) = state.dequeue_next(NOW) {
        if f == a {
            seen_a += 1;
        } else {
            seen_b += 1;
        }
        state.complete_send(p.len);
    }
    assert!(seen_a > 0 && seen_b > 0, "no flow may starve");
}

#[test]
fn stale_packets_dropped_by_ceiling() {
    let mut state = PeerState::new();
    let f = flow(1, 1111);
    let old = QueuedPacket::new(vec![0u8; 100], NOW - SOJOURN_CEILING - 10_000_000);
    assert!(state.enqueue(f, old, NOW).is_none());
    assert!(state.enqueue(f, queued(100), NOW).is_none());
    let (_, p) = state.dequeue_next(NOW).expect("fresh survives");
    assert_eq!(state.snapshot().packets, 1);
    assert_eq!(p.len, 100);
    assert_eq!(p.enqueued_at, NOW);
}

fn icmp_or_tcp(tcp: bool, payload: usize) -> Vec<u8> {
    let b = etherparse::PacketBuilder::ipv4([10, 0, 0, 1], [10, 0, 0, 2], 64);
    let mut o = Vec::new();
    if tcp {
        b.tcp(40000, 443, 1, 1).write(&mut o, &vec![0; payload]).unwrap();
    } else {
        b.icmpv4_echo_request(7, 1).write(&mut o, &vec![0; payload]).unwrap();
    }
    o
}

#[test]
fn icmp_not_trapped_behind_tcp_bulk() {
    let icmp_raw = icmp_or_tcp(false, 32);
    let tcp_raw = icmp_or_tcp(true, 1200);
    let icmp = PacketBuf::from_slice(&icmp_raw, NOW).unwrap();
    let tcp = PacketBuf::from_slice(&tcp_raw, NOW).unwrap();
    assert_ne!(icmp.flow, tcp.flow, "ICMP must isolate from TCP bulk");

    let mut state = PeerState::new();
    for _ in 0..20 {
        assert!(state.enqueue(tcp.flow, queued(1200), NOW).is_none());
    }
    state.end_sparse_epoch(tcp.flow);
    assert!(state.enqueue(icmp.flow, queued(64), NOW).is_none());
    let (first, _) = state.dequeue_next(NOW).expect("packet");
    assert_eq!(first, icmp.flow, "ICMP must jump saturated TCP bulk");
}

#[test]
fn requeue_preserves_head_order_no_global_hol() {
    let mut a = PeerState::new();
    let mut b = PeerState::new();
    for i in 0..3usize {
        assert!(a.enqueue(flow(1, 1111), queued(100 + i), NOW).is_none());
    }
    assert!(b.enqueue(flow(9, 9999), queued(100), NOW).is_none());
    let (f, p) = a.dequeue_next(NOW).unwrap();
    a.requeue_head(f, p);
    let (_, pb) = b.dequeue_next(NOW).expect("peer B independent of A");
    assert_eq!(pb.len, 100);
    let mut order = Vec::new();
    while let Some((_, p)) = a.dequeue_next(NOW) {
        order.push(p.len);
        a.complete_send(p.len);
    }
    assert_eq!(order, vec![100, 101, 102]);
}

#[test]
fn memory_bounds_enforced() {
    let mut state = PeerState::new();
    let offered = PEER_PACKET_CAP + 64;
    let mut drops = 0;
    for i in 0..offered {
        let r = state.enqueue(flow(1, 1000 + (i % 8) as u16), queued(1400), NOW);
        if r.is_some() {
            drops += 1;
        }
    }
    let retained = state.snapshot().packets as usize;
    assert!(retained <= PEER_PACKET_CAP);
    assert!(state.snapshot().bytes as usize <= PEER_BYTE_CAP + 1400);
    assert!(retained + drops < offered, "scheduler must shed load under pressure");
}

#[test]
fn sched_drop_reason_labels() {
    assert_eq!(DropReason::PeerByteCap.as_str(), "sched_peer_bytes");
    assert_eq!(DropReason::PeerPacketCap.as_str(), "sched_peer_packets");
    assert_eq!(DropReason::FlowCap.as_str(), "sched_flow_cap");
    assert_eq!(DropReason::StaleSojourn.as_str(), "sched_stale");
    assert_eq!(DropReason::TransportTooLarge.as_str(), "datagram_too_large");
    assert_eq!(DropReason::NoConnection.as_str(), "no_connection");
}
