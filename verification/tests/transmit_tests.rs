use tunnet::flow::{FlowKey, IpAddress};
use tunnet::frame::{decode, Frame};
use tunnet::pool::PacketPool;
use tunnet::transmit::{segmented_start, NextFrame, PartialPacket, SegmentedStart};
use tunnet::underlay::{add_dns_underlay_hosts, parse_ipv4_addr, underlay_hosts_from_url};
use tunnet::transmit::{single_send_action, SingleSendAction, SingleSendOutcome};

fn flow() -> FlowKey {
    FlowKey { src: IpAddress::V4(1), dst: IpAddress::V4(2), proto: 17, sport: 1, dport: 2 }
}

#[test]
fn segmented_transmit_walks_every_segment_once() {
    let packet: Vec<u8> = (0..2800u32).map(|i| (i % 253) as u8).collect();
    let mut cur = PartialPacket::new(packet.clone(), flow(), 1350, 77);
    assert_eq!(cur.count, 3);
    let (count, seg_cap) = match segmented_start(cur.total, 1350, false) {
        SegmentedStart::Segments { count, seg_cap } => (count, seg_cap),
        other => panic!("{other:?}"),
    };
    assert!(!cur.needs_restart(count));
    let mut pool = PacketPool::new(8);
    let mut joined = Vec::new();
    let mut sent = 0;
    loop {
        match cur.next_frame(&mut pool, seg_cap) {
            NextFrame::Done { logical } => {
                assert_eq!(logical, 2800);
                break;
            }
            NextFrame::Frame(f) => {
                match decode(&f).unwrap() {
                    Frame::Segment(h, p) => {
                        assert_eq!((h.id, h.index as usize, h.count as usize), (77, sent, 3));
                        joined.extend_from_slice(p);
                    }
                    _ => panic!("single"),
                }
                sent += 1;
                cur.on_sent();
            }
            NextFrame::TooLarge => panic!("too large"),
        }
    }
    assert_eq!(sent, 3);
    assert_eq!(joined, packet);
}

#[test]
fn restarts_and_too_large_give_up() {
    let mut cur = PartialPacket::new(vec![1u8; 2800], flow(), 1350, 1);
    assert!(cur.needs_restart(4));
    cur.restart(4, 2);
    assert_eq!((cur.count, cur.frame_id, cur.next_index), (4, 2, 0));
    cur.on_sent();
    let (r, go) = cur.on_too_large(3, 0, 1350);
    assert_eq!((r, go, cur.next_index, cur.frame_id), (1, true, 0, 3));
    let (r, go) = cur.on_too_large(4, 2, 1350);
    assert_eq!((r, go), (3, false));
    let (_, go) = cur.on_too_large(5, 0, 20);
    assert!(!go);
    let (bytes, f) = cur.into_packet();
    assert_eq!(bytes.len(), 2800);
    assert_eq!(f, flow());
}

#[test]
fn segmented_start_decisions() {
    assert_eq!(segmented_start(1000, 1500, false), SegmentedStart::Single);
    assert_eq!(segmented_start(2800, 50, false), SegmentedStart::RefreshThenRetry);
    assert_eq!(segmented_start(2800, 50, true), SegmentedStart::Drop);
}

#[test]
fn underlay_hosts_from_control_url() {
    assert_eq!(underlay_hosts_from_url(" https://203.0.113.5:8443/api "), vec![u32::from_be_bytes([203, 0, 113, 5])]);
    assert_eq!(underlay_hosts_from_url("http://198.51.100.7?x=1"), vec![u32::from_be_bytes([198, 51, 100, 7])]);
    assert_eq!(underlay_hosts_from_url("https://control.example.com"), Vec::<u32>::new());
    assert_eq!(underlay_hosts_from_url("http://127.0.0.1:8080"), Vec::<u32>::new());
    assert_eq!(underlay_hosts_from_url("http://0.0.0.0"), Vec::<u32>::new());
    assert_eq!(underlay_hosts_from_url("http://[::1]:80"), Vec::<u32>::new());
}

#[test]
fn dotted_quad_parsing() {
    assert_eq!(parse_ipv4_addr("10.1.2.3"), Some(u32::from_be_bytes([10, 1, 2, 3])));
    assert_eq!(parse_ipv4_addr("255.255.255.255"), Some(u32::MAX));
    assert_eq!(parse_ipv4_addr("256.1.1.1"), None);
    assert_eq!(parse_ipv4_addr("01.1.1.1"), None);
    assert_eq!(parse_ipv4_addr("1.1.1"), None);
    assert_eq!(parse_ipv4_addr("1.1.1.1.1"), None);
    assert_eq!(parse_ipv4_addr("1..1.1"), None);
    assert_eq!(parse_ipv4_addr("a.b.c.d"), None);
    assert_eq!(parse_ipv4_addr("0.0.0.0"), Some(0));
    assert_eq!(parse_ipv4_addr("1.2.3.04"), None);
    assert_eq!(parse_ipv4_addr("1.2.3.4 "), None);
    assert_eq!(parse_ipv4_addr(""), None);
    assert_eq!(parse_ipv4_addr("9.9.9.999"), None);
}

#[test]
fn dns_servers_join_underlay_hosts() {
    let mut hosts = vec![5u32];
    add_dns_underlay_hosts(
        &mut hosts,
        &[IpAddress::V4(5), IpAddress::V4(0x7f00_0001), IpAddress::V6(1), IpAddress::V4(9), IpAddress::V4(9)],
    );
    assert_eq!(hosts, vec![5, 9]);
    let mut fresh = Vec::new();
    add_dns_underlay_hosts(&mut fresh, &[IpAddress::V4(3), IpAddress::V4(0x7fff_ffff), IpAddress::V4(1), IpAddress::V4(3), IpAddress::V4(2)]);
    assert_eq!(fresh, vec![3, 1, 2]);
}

#[test]
fn single_frame_path_only_for_fresh_fitting_packets() {
    assert!(tunnet::transmit::use_single_frame(0, 100, 1200));
    assert!(!tunnet::transmit::use_single_frame(1, 100, 1200));
    assert!(!tunnet::transmit::use_single_frame(0, 3000, 1200));
    assert!(!tunnet::transmit::use_single_frame(0, 0, 1200));
}

#[test]
fn single_send_outcomes() {
    assert!(matches!(
        single_send_action(SingleSendOutcome::Sent, true),
        SingleSendAction::Done
    ));
    assert!(matches!(
        single_send_action(SingleSendOutcome::TransportFull, true),
        SingleSendAction::Requeue { dial: false }
    ));
    assert!(matches!(
        single_send_action(SingleSendOutcome::TransportFull, false),
        SingleSendAction::CountDrop { label: "datagram_too_large", dial: false }
    ));
    assert!(matches!(
        single_send_action(SingleSendOutcome::Closed, true),
        SingleSendAction::Requeue { dial: true }
    ));
    assert!(matches!(
        single_send_action(SingleSendOutcome::NoConnection, false),
        SingleSendAction::CountDrop { label: "no_connection", dial: true }
    ));
    assert!(matches!(
        single_send_action(SingleSendOutcome::TooLarge, true),
        SingleSendAction::Resegment
    ));
    assert!(matches!(
        single_send_action(SingleSendOutcome::TooLarge, false),
        SingleSendAction::GiveUp("datagram_too_large")
    ));
}
