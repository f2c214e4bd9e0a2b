use etherparse::PacketBuilder;
use tunnet::dataplane::{
    after_reassembly, inbound_decision, outbound_decision, PacketDecision, inbound_front, inbound_source_check, outbound_route, verdict_action,
    AfterReassembly, InboundFront, OutboundRoute, PolicyVerdict, ReassemblyDrop,
    ReassemblyOutcome, RouteDecision, VerdictAction,
};
use tunnet::frame::{encode_segment_prefix, SegmentHeader, KIND_SINGLE};
use tunnet::meta::PacketBuf;

fn udp(src: [u8; 4], dst: [u8; 4]) -> Vec<u8> {
    let b = PacketBuilder::ipv4(src, dst, 64).udp(1000, 2000);
    let mut o = Vec::new();
    b.write(&mut o, b"payload").unwrap();
    o
}

#[test]
fn outbound_routes_and_drop_labels() {
    let p = PacketBuf::from_slice(&udp([10, 0, 0, 1], [10, 0, 0, 2]), 0).unwrap();
    let me = u32::from_be_bytes([10, 0, 0, 1]);
    let peer = u32::from_be_bytes([10, 0, 0, 2]);
    assert!(matches!(outbound_route(&p.meta, RouteDecision::LocalMagic, me), OutboundRoute::Drop("magic_dns_local")));
    assert!(matches!(outbound_route(&p.meta, RouteDecision::LocalAdvertised, me), OutboundRoute::Drop("local_subnet")));
    assert!(matches!(outbound_route(&p.meta, RouteDecision::NoRoute, me), OutboundRoute::Drop("no_route")));
    assert!(matches!(outbound_route(&p.meta, RouteDecision::Peer(me), me), OutboundRoute::Drop("self")));
    assert!(matches!(outbound_route(&p.meta, RouteDecision::Peer(peer), me), OutboundRoute::CheckPolicy(x) if x == peer));
}

#[test]
fn verdicts_map_to_actions() {
    assert!(matches!(verdict_action(PolicyVerdict::Allow, true), VerdictAction::Pass));
    assert!(matches!(verdict_action(PolicyVerdict::Deny, false), VerdictAction::Drop("policy_deny")));
    assert!(matches!(verdict_action(PolicyVerdict::Deny, true), VerdictAction::Drop("policy_deny_in")));
    assert!(matches!(verdict_action(PolicyVerdict::Reject, false), VerdictAction::Reject("fw_reject_out")));
    assert!(matches!(verdict_action(PolicyVerdict::Reject, true), VerdictAction::Reject("fw_reject_in")));
}

#[test]
fn inbound_front_decodes_and_parses() {
    assert!(matches!(inbound_front(&[], 0), InboundFront::Drop { drop: "malformed_frame", reassembly: Some("malformed") }));
    let mut single = vec![KIND_SINGLE];
    single.extend_from_slice(&udp([10, 0, 0, 3], [10, 0, 0, 1]));
    match inbound_front(&single, 9) {
        InboundFront::Packet(b) => {
            assert_eq!(b.meta.src_v4, Some(u32::from_be_bytes([10, 0, 0, 3])));
            assert_eq!(b.enqueued_at, 9);
        }
        other => panic!("{other:?}"),
    }
    assert!(matches!(
        inbound_front(&[KIND_SINGLE, 0x55, 0x55], 0),
        InboundFront::Drop { drop: "malformed_transport", reassembly: None }
    ));
    let mut seg = vec![0u8; 11 + 70];
    encode_segment_prefix(&mut seg, SegmentHeader { id: 5, index: 0, count: 2, total: 100 });
    match inbound_front(&seg, 0) {
        InboundFront::Segment(h, p) => {
            assert_eq!(h.id, 5);
            assert_eq!(p.len(), 70);
        }
        other => panic!("{other:?}"),
    }
}

#[test]
fn reassembly_outcomes() {
    match after_reassembly(ReassemblyOutcome::Complete(udp([1, 1, 1, 1], [2, 2, 2, 2])), 3) {
        AfterReassembly::Packet(b) => assert_eq!(b.enqueued_at, 3),
        other => panic!("{other:?}"),
    }
    assert!(matches!(
        after_reassembly(ReassemblyOutcome::Complete(vec![0x55; 4]), 0),
        AfterReassembly::Stop { reassembly: "complete", drop: Some("malformed_transport") }
    ));
    assert!(matches!(after_reassembly(ReassemblyOutcome::Pending, 0), AfterReassembly::Stop { reassembly: "pending", drop: None }));
    assert!(matches!(after_reassembly(ReassemblyOutcome::Duplicate, 0), AfterReassembly::Stop { reassembly: "duplicate", drop: None }));
    assert!(matches!(
        after_reassembly(ReassemblyOutcome::Dropped(ReassemblyDrop::OverBytes), 0),
        AfterReassembly::Stop { reassembly: "dropped", drop: Some("reasm_bytes") }
    ));
}

#[test]
fn inbound_antispoof() {
    let p = PacketBuf::from_slice(&udp([10, 0, 0, 3], [10, 0, 0, 1]), 0).unwrap();
    assert_eq!(inbound_source_check(&p.meta, u32::from_be_bytes([10, 0, 0, 3])), None);
    assert_eq!(inbound_source_check(&p.meta, u32::from_be_bytes([10, 0, 0, 4])), Some("antispoof"));
}

#[test]
fn oversize_outbound_is_dropped() {
    assert_eq!(tunnet::dataplane::outbound_oversize(1281, 1280), Some("oversize_mtu"));
    assert_eq!(tunnet::dataplane::outbound_oversize(1280, 1280), None);
}

#[test]
fn ingress_flushes_full_batches_and_the_tail() {
    assert_eq!(tunnet::dataplane::ingress_after_datagram(0, false), (0, false));
    assert_eq!(tunnet::dataplane::ingress_after_datagram(5, true), (6, false));
    assert_eq!(tunnet::dataplane::ingress_after_datagram(31, true), (32, true));
    assert!(tunnet::dataplane::ingress_flush_at_end(1));
    assert!(!tunnet::dataplane::ingress_flush_at_end(0));
}

fn ip(a: [u8; 4]) -> u32 {
    u32::from_be_bytes(a)
}

#[test]
fn inbound_gate_delivers_only_checked_allowed_packets() {
    let pkt = PacketBuf::from_slice(&udp([10, 0, 0, 2], [10, 0, 0, 1]), 0).unwrap();
    let peer = ip([10, 0, 0, 2]);
    assert!(matches!(inbound_decision(&pkt.meta, peer, PolicyVerdict::Allow), PacketDecision::Deliver));
    assert!(matches!(inbound_decision(&pkt.meta, peer, PolicyVerdict::Deny), PacketDecision::Drop("policy_deny_in")));
    assert!(matches!(inbound_decision(&pkt.meta, peer, PolicyVerdict::Reject), PacketDecision::Reject("fw_reject_in")));
    assert!(matches!(
        inbound_decision(&pkt.meta, ip([10, 0, 0, 9]), PolicyVerdict::Allow),
        PacketDecision::Drop("antispoof")
    ));
}

#[test]
fn outbound_gate_delivers_only_checked_allowed_packets() {
    let raw = udp([10, 0, 0, 1], [10, 0, 0, 2]);
    let pkt = PacketBuf::from_slice(&raw, 0).unwrap();
    let me = ip([10, 0, 0, 1]);
    let peer = RouteDecision::Peer(ip([10, 0, 0, 2]));
    assert!(matches!(outbound_decision(raw.len(), 1400, &pkt.meta, peer, me, PolicyVerdict::Allow), PacketDecision::Deliver));
    assert!(matches!(outbound_decision(raw.len(), 20, &pkt.meta, peer, me, PolicyVerdict::Allow), PacketDecision::Drop("oversize_mtu")));
    assert!(matches!(outbound_decision(raw.len(), 1400, &pkt.meta, RouteDecision::Peer(me), me, PolicyVerdict::Allow), PacketDecision::Drop("self")));
    assert!(matches!(outbound_decision(raw.len(), 1400, &pkt.meta, RouteDecision::NoRoute, me, PolicyVerdict::Allow), PacketDecision::Drop("no_route")));
    assert!(matches!(outbound_decision(raw.len(), 1400, &pkt.meta, peer, me, PolicyVerdict::Deny), PacketDecision::Drop("policy_deny")));
    assert!(matches!(outbound_decision(raw.len(), 1400, &pkt.meta, peer, me, PolicyVerdict::Reject), PacketDecision::Reject("fw_reject_out")));
}
