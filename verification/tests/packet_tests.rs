use etherparse::{Ipv4Header, PacketBuilder, TcpHeader, TcpOptionElement};
use tunnet::flow::{FlowKey, IpAddress};
use tunnet::ipv4::Protocol;
use tunnet::meta::{PacketBuf, PacketMeta, SshNatClass};
use tunnet::packet::{parse, Fragmentation, IpMeta, ParseError, Transport};
use tunnet::reject::synthesize_reject;

fn ipv4_tcp(src: [u8; 4], dst: [u8; 4], sport: u16, dport: u16, payload: &[u8]) -> Vec<u8> {
    let b = PacketBuilder::ipv4(src, dst, 64).tcp(sport, dport, 1, 64240).syn();
    let mut out = Vec::with_capacity(b.size(payload.len()));
    b.write(&mut out, payload).unwrap();
    out
}

fn ipv4_udp(src: [u8; 4], dst: [u8; 4], sport: u16, dport: u16, payload: &[u8]) -> Vec<u8> {
    let b = PacketBuilder::ipv4(src, dst, 64).udp(sport, dport);
    let mut out = Vec::with_capacity(b.size(payload.len()));
    b.write(&mut out, payload).unwrap();
    out
}

#[test]
fn parses_tcp_syn() {
    let p = ipv4_tcp([10, 0, 0, 1], [10, 0, 0, 2], 12345, 80, &[]);
    let pkt = parse(&p).unwrap();
    assert_eq!(pkt.wire_len, p.len());
    assert_eq!(pkt.policy_protocol(), Protocol::Tcp);
    assert_eq!(pkt.transport.src_port(), Some(12345));
    assert_eq!(pkt.transport.dst_port(), Some(80));
    assert!(pkt.transport.tcp_flags().unwrap().syn());
    assert!(!pkt.fragmentation.is_later());
}

#[test]
fn parses_tcp_with_payload_and_options() {
    let mut tcp = TcpHeader::new(40000, 443, 9, 1000);
    tcp.syn = true;
    tcp.set_options(&[TcpOptionElement::MaximumSegmentSize(1460)]).unwrap();
    let mut ip = Ipv4Header::new(
        (tcp.header_len() + 4) as u16,
        64,
        etherparse::IpNumber::TCP,
        [10, 0, 0, 1],
        [10, 0, 0, 2],
    )
    .unwrap();
    ip.header_checksum = ip.calc_header_checksum();
    let payload = b"abcd";
    tcp.checksum = tcp.calc_checksum_ipv4(&ip, payload).unwrap();
    let mut buf = Vec::new();
    ip.write(&mut buf).unwrap();
    tcp.write(&mut buf).unwrap();
    buf.extend_from_slice(payload);
    let pkt = parse(&buf).unwrap();
    match pkt.transport {
        Transport::Tcp { header_len, payload_len, .. } => {
            assert!(header_len > 20);
            assert_eq!(payload_len, 4);
        }
        other => panic!("{other:?}"),
    }
}

#[test]
fn parses_udp_and_icmp() {
    let udp = ipv4_udp([10, 0, 0, 1], [10, 0, 0, 2], 53000, 53, b"dns");
    let pkt = parse(&udp).unwrap();
    assert_eq!(pkt.policy_protocol(), Protocol::Udp);
    assert_eq!(pkt.transport.dst_port(), Some(53));
    assert_eq!(pkt.transport.l4_payload_len(), 3);

    let b = PacketBuilder::ipv4([10, 0, 0, 1], [10, 0, 0, 2], 64).icmpv4_echo_request(7, 9);
    let mut icmp = Vec::new();
    b.write(&mut icmp, b"hi").unwrap();
    let pkt = parse(&icmp).unwrap();
    match pkt.transport {
        Transport::Icmpv4 { echo_id, echo_seq, .. } => {
            assert_eq!(echo_id, Some(7));
            assert_eq!(echo_seq, Some(9));
        }
        other => panic!("{other:?}"),
    }
}

#[test]
fn unknown_protocol_is_other_not_any() {
    let mut ip = Ipv4Header::new(0, 64, etherparse::IpNumber(47), [1, 1, 1, 1], [2, 2, 2, 2]).unwrap();
    ip.header_checksum = ip.calc_header_checksum();
    let mut buf = Vec::new();
    ip.write(&mut buf).unwrap();
    let pkt = parse(&buf).unwrap();
    assert_eq!(pkt.policy_protocol(), Protocol::Other(47));
    assert_ne!(pkt.policy_protocol(), Protocol::Any);
}

#[test]
fn trailing_bytes_ignored_for_wire_len() {
    let mut p = ipv4_udp([10, 0, 0, 1], [10, 0, 0, 2], 1, 2, b"xy");
    let wire = p.len();
    p.extend_from_slice(&[0u8; 64]);
    let pkt = parse(&p).unwrap();
    assert_eq!(pkt.wire_len, wire);
    assert_eq!(pkt.transport.l4_payload_len(), 2);
}

#[test]
fn truncated_and_bad_version() {
    assert!(matches!(
        parse(&[0x45, 0, 0, 20]),
        Err(ParseError::Truncated) | Err(ParseError::InvalidTotalLength)
    ));
    assert!(matches!(parse(&[0x55; 20]), Err(ParseError::UnsupportedVersion(5))));
    assert_eq!(parse(&[]).err(), Some(ParseError::Truncated));
}

#[test]
fn malformed_ihl() {
    let mut p = ipv4_tcp([1, 1, 1, 1], [2, 2, 2, 2], 1, 2, &[]);
    p[0] = 0x44;
    assert!(matches!(parse(&p), Err(ParseError::InvalidIhl) | Err(ParseError::InvalidIpHeader)));
}

#[test]
fn later_fragment_is_not_tcp_ports() {
    let mut p = ipv4_tcp([10, 0, 0, 1], [10, 0, 0, 2], 22, 22, &[]);
    p[6] &= 0xe0;
    p[7] = 8;
    let pkt = parse(&p).unwrap();
    assert!(pkt.transport.is_later_fragment());
    assert_eq!(pkt.transport.src_port(), None);
    assert_eq!(pkt.transport.dst_port(), None);
}

#[test]
fn first_fragment_keeps_tcp() {
    let mut p = ipv4_tcp([10, 0, 0, 1], [10, 0, 0, 2], 40000, 80, &[]);
    p[6] |= 0x20;
    let pkt = parse(&p).unwrap();
    assert!(matches!(pkt.fragmentation, Fragmentation::First { .. }));
    assert_eq!(pkt.transport.dst_port(), Some(80));
}

#[test]
fn total_length_beyond_bytes_is_invalid_total_length() {
    let mut p = ipv4_udp([10, 0, 0, 1], [10, 0, 0, 2], 1, 2, b"xy");
    p[3] = p[3].wrapping_add(10);
    assert_eq!(parse(&p).err(), Some(ParseError::InvalidTotalLength));
}

#[test]
fn short_tcp_header_is_malformed_tcp() {
    let mut ip = Ipv4Header::new(4, 64, etherparse::IpNumber::TCP, [1, 1, 1, 1], [2, 2, 2, 2]).unwrap();
    ip.header_checksum = ip.calc_header_checksum();
    let mut buf = Vec::new();
    ip.write(&mut buf).unwrap();
    buf.extend_from_slice(&[0, 1, 0, 2]);
    assert_eq!(parse(&buf).err(), Some(ParseError::MalformedTcp));
}

#[test]
fn short_udp_header_is_malformed_udp() {
    let mut ip = Ipv4Header::new(4, 64, etherparse::IpNumber::UDP, [1, 1, 1, 1], [2, 2, 2, 2]).unwrap();
    ip.header_checksum = ip.calc_header_checksum();
    let mut buf = Vec::new();
    ip.write(&mut buf).unwrap();
    buf.extend_from_slice(&[0, 1, 0, 2]);
    assert_eq!(parse(&buf).err(), Some(ParseError::MalformedUdp));
}

#[test]
fn ipv4_fields_are_read() {
    let p = ipv4_udp([10, 1, 2, 3], [192, 168, 4, 5], 1000, 2000, b"abc");
    let pkt = parse(&p).unwrap();
    match pkt.ip {
        IpMeta::V4 { src, dst, protocol, header_len, ttl, .. } => {
            assert_eq!(src, u32::from_be_bytes([10, 1, 2, 3]));
            assert_eq!(dst, u32::from_be_bytes([192, 168, 4, 5]));
            assert_eq!(protocol, 17);
            assert_eq!(header_len, 20);
            assert_eq!(ttl, 64);
        }
        other => panic!("{other:?}"),
    }
    assert_eq!(pkt.fragmentation, Fragmentation::Unfragmented);
}

#[test]
fn ipv6_udp_is_parsed() {
    let src = [0x20, 0x01, 0x0d, 0xb8, 0, 0, 0, 0, 0, 0, 0, 0, 0, 0, 0, 1];
    let dst = [0x20, 0x01, 0x0d, 0xb8, 0, 0, 0, 0, 0, 0, 0, 0, 0, 0, 0, 2];
    let b = PacketBuilder::ipv6(src, dst, 17).udp(5000, 6000);
    let mut out = Vec::new();
    b.write(&mut out, b"hello").unwrap();
    let pkt = parse(&out).unwrap();
    assert_eq!(pkt.wire_len, out.len());
    match pkt.ip {
        IpMeta::V6 { src: s, dst: d, next_header, hop_limit, header_len, identification } => {
            assert_eq!(s, u128::from_be_bytes(src));
            assert_eq!(d, u128::from_be_bytes(dst));
            assert_eq!(next_header, 17);
            assert_eq!(hop_limit, 17);
            assert_eq!(header_len, 40);
            assert_eq!(identification, None);
        }
        other => panic!("{other:?}"),
    }
    assert_eq!(pkt.transport.src_port(), Some(5000));
    assert_eq!(pkt.transport.l4_payload_len(), 5);
}

#[test]
fn ipv6_fragment_header_is_found() {
    // Fixed header announcing a fragment header, then the fragment header
    // (next header UDP, offset 2, more fragments, id 0x01020304).
    let mut p = vec![0x60, 0, 0, 0, 0, 16, 44, 64];
    p.extend_from_slice(&[0u8; 32]);
    p.extend_from_slice(&[17, 0, 0, 0x11, 1, 2, 3, 4]);
    p.extend_from_slice(&[0u8; 8]);
    let pkt = parse(&p).unwrap();
    assert_eq!(pkt.fragmentation, Fragmentation::Later { identification: 0x01020304, offset: 2, more: true });
    assert!(pkt.transport.is_later_fragment());
    match pkt.ip {
        IpMeta::V6 { identification, next_header, .. } => {
            assert_eq!(identification, Some(0x01020304));
            assert_eq!(next_header, 17);
        }
        other => panic!("{other:?}"),
    }
}

#[test]
fn parse_error_drop_reason_labels() {
    assert_eq!(ParseError::Truncated.drop_reason(), "truncated");
    assert_eq!(ParseError::UnsupportedVersion(5).drop_reason(), "unsupported_ip_version");
    assert_eq!(ParseError::InvalidIpHeader.drop_reason(), "malformed_ip");
    assert_eq!(ParseError::InvalidIhl.drop_reason(), "invalid_ihl");
    assert_eq!(ParseError::InvalidTotalLength.drop_reason(), "invalid_ip_len");
    assert_eq!(ParseError::MalformedTcp.drop_reason(), "malformed_tcp");
    assert_eq!(ParseError::MalformedUdp.drop_reason(), "malformed_udp");
    assert_eq!(ParseError::MalformedTransport.drop_reason(), "malformed_transport");
}

#[test]
fn protocol_any_is_not_unknown() {
    assert_ne!(Protocol::from_ip_number(47), Protocol::Any);
    assert!(Protocol::Tcp.matches_rule(Some(Protocol::Any)));
    assert!(!Protocol::Other(47).matches_rule(Some(Protocol::Tcp)));
}

fn udp_packet() -> Vec<u8> {
    ipv4_udp([10, 0, 0, 1], [10, 0, 0, 2], 40000, 443, &[0; 200])
}

#[test]
fn flow_key_stable_for_5tuple() {
    let raw = udp_packet();
    let a = PacketBuf::from_slice(&raw, 5).unwrap();
    let b = PacketBuf::from_slice(&raw, 7).unwrap();
    assert_eq!(a.flow, b.flow);
    assert_eq!(a.meta, b.meta);
    assert_eq!(
        a.flow,
        FlowKey {
            src: IpAddress::V4(u32::from_be_bytes([10, 0, 0, 1])),
            dst: IpAddress::V4(u32::from_be_bytes([10, 0, 0, 2])),
            proto: 17,
            sport: 40000,
            dport: 443,
        }
    );
}

#[test]
fn into_bytes_no_copy_length() {
    let raw = udp_packet();
    let p = PacketBuf::from_slice(&raw, 0).unwrap();
    let n = p.len();
    let b = p.into_bytes();
    assert_eq!(b.len(), n);
    assert_eq!(b, raw);
}

#[test]
fn packet_buf_owns_bytes_and_reports_sojourn() {
    let raw = udp_packet();
    let p = PacketBuf::from_vec(raw.clone(), raw.len(), 100).unwrap();
    assert_eq!(p.len(), raw.len());
    assert!(!p.is_empty());
    assert_eq!(p.as_bytes(), raw.as_slice());
    assert_eq!(p.sojourn(350), 250);
    assert_eq!(p.sojourn(50), 0);
    assert!(PacketBuf::from_slice(&[0x55; 20], 0).is_none());
}

#[test]
fn later_fragment_flow_uses_identification() {
    let mut p = ipv4_tcp([10, 0, 0, 1], [10, 0, 0, 2], 22, 22, &[]);
    p[4] = 0x12;
    p[5] = 0x34;
    p[6] &= 0xe0;
    p[7] = 8;
    let b = PacketBuf::from_slice(&p, 0).unwrap();
    assert_eq!(b.flow.sport, 0x1234);
    assert_eq!(b.flow.dport, 6 * 31);
    assert!(b.meta.is_fragment());
    assert!(b.meta.is_later_fragment());
}

#[test]
fn ssh_nat_classification() {
    let me = [10, 0, 0, 9];
    let me_ip = u32::from_be_bytes(me);
    let inbound = PacketBuf::from_slice(&ipv4_tcp([10, 0, 0, 1], me, 5555, 22, &[]), 0).unwrap();
    assert_eq!(inbound.meta.ssh_nat_class(me_ip), SshNatClass::InboundToInternal);
    let outbound = PacketBuf::from_slice(&ipv4_tcp(me, [10, 0, 0, 1], 30022, 5555, &[]), 0).unwrap();
    assert_eq!(outbound.meta.ssh_nat_class(me_ip), SshNatClass::OutboundToExternal);
    let other = PacketBuf::from_slice(&ipv4_tcp(me, [10, 0, 0, 1], 80, 5555, &[]), 0).unwrap();
    assert_eq!(other.meta.ssh_nat_class(me_ip), SshNatClass::Unmatched);
    let m: PacketMeta = inbound.meta;
    assert_eq!(m.tcp_flags & 0x02, 0x02);
}

#[test]
fn reject_rst_checksum_valid() {
    let p = ipv4_tcp([10, 0, 0, 2], [10, 0, 0, 1], 9999, 22, &[]);
    let pkt = parse(&p).unwrap();
    let reply = synthesize_reject(&pkt).unwrap();
    let parsed = parse(&reply).unwrap();
    match parsed.transport {
        Transport::Tcp { flags, .. } => assert!(flags.rst() && flags.ack()),
        other => panic!("{other:?}"),
    }
}

#[test]
fn reject_rst_answers_the_source() {
    let p = ipv4_tcp([10, 0, 0, 2], [10, 0, 0, 1], 9999, 22, &[]);
    let pkt = parse(&p).unwrap();
    let reply = synthesize_reject(&pkt).unwrap();
    let parsed = parse(&reply).unwrap();
    assert_eq!(parsed.ip.v4_src(), Some(u32::from_be_bytes([10, 0, 0, 1])));
    assert_eq!(parsed.ip.v4_dst(), Some(u32::from_be_bytes([10, 0, 0, 2])));
    match parsed.ip {
        IpMeta::V4 { ttl, .. } => assert_eq!(ttl, 64),
        other => panic!("{other:?}"),
    }
    match parsed.transport {
        Transport::Tcp { src_port, dst_port, seq, ack, .. } => {
            assert_eq!((src_port, dst_port), (22, 9999));
            // The SYN carried no ACK: the reset starts at zero and
            // acknowledges the SYN's sequence number plus one.
            assert_eq!(seq, 0);
            assert_eq!(ack, 2);
        }
        other => panic!("{other:?}"),
    }
    let tcp = TcpHeader::from_slice(&reply[20..]).unwrap().0;
    let ip = Ipv4Header::from_slice(&reply[..20]).unwrap().0;
    assert_eq!(tcp.checksum, tcp.calc_checksum_ipv4(&ip, &[]).unwrap());
}

#[test]
fn reject_udp_is_port_unreachable_quoting_28_bytes() {
    let p = ipv4_udp([10, 0, 0, 2], [10, 0, 0, 1], 5000, 53, b"a longer payload here");
    let pkt = parse(&p).unwrap();
    let reply = synthesize_reject(&pkt).unwrap();
    let parsed = parse(&reply).unwrap();
    assert_eq!(parsed.ip.v4_dst(), Some(u32::from_be_bytes([10, 0, 0, 2])));
    match parsed.transport {
        Transport::Icmpv4 { type_u8, code, payload_len, .. } => {
            assert_eq!(type_u8, 3);
            assert_eq!(code, 3);
            assert_eq!(payload_len, 28);
        }
        other => panic!("{other:?}"),
    }
    assert_eq!(&reply[reply.len() - 28..], &p[..28]);
}

#[test]
fn reject_icmp_is_administratively_prohibited() {
    let b = PacketBuilder::ipv4([10, 0, 0, 2], [10, 0, 0, 1], 64).icmpv4_echo_request(7, 9);
    let mut icmp = Vec::new();
    b.write(&mut icmp, b"hi").unwrap();
    let pkt = parse(&icmp).unwrap();
    let reply = synthesize_reject(&pkt).unwrap();
    let parsed = parse(&reply).unwrap();
    match parsed.transport {
        Transport::Icmpv4 { type_u8, code, payload_len, .. } => {
            assert_eq!(type_u8, 3);
            assert_eq!(code, 10);
            // 20 header bytes + 8 bytes of the echo header; the packet is 30 long.
            assert_eq!(payload_len, 28);
        }
        other => panic!("{other:?}"),
    }
}

#[test]
fn reject_ipv6_gets_no_reply() {
    let src = [0x20, 0x01, 0x0d, 0xb8, 0, 0, 0, 0, 0, 0, 0, 0, 0, 0, 0, 1];
    let dst = [0x20, 0x01, 0x0d, 0xb8, 0, 0, 0, 0, 0, 0, 0, 0, 0, 0, 0, 2];
    let b = PacketBuilder::ipv6(src, dst, 17).udp(5000, 6000);
    let mut out = Vec::new();
    b.write(&mut out, b"hello").unwrap();
    let pkt = parse(&out).unwrap();
    assert!(synthesize_reject(&pkt).is_none());
}

fn ipv4_igmp(payload: &[u8]) -> Vec<u8> {
    let mut ip = Ipv4Header::new(payload.len() as u16, 1, etherparse::IpNumber(2), [1, 1, 1, 1], [224, 0, 0, 1]).unwrap();
    ip.header_checksum = ip.calc_header_checksum();
    let mut buf = Vec::new();
    ip.write(&mut buf).unwrap();
    buf.extend_from_slice(payload);
    buf
}

#[test]
fn igmp_queries_need_a_valid_length() {
    let v2_query = [0x11, 100, 0, 0, 0, 0, 0, 0];
    match parse(&ipv4_igmp(&v2_query)).unwrap().transport {
        Transport::Other { protocol, payload_len } => assert_eq!((protocol, payload_len), (2, 0)),
        other => panic!("{other:?}"),
    }
    assert_eq!(parse(&ipv4_igmp(&[0x11, 0, 0, 0, 0, 0, 0, 0, 0, 0])).err(), Some(ParseError::Truncated));
    let v3_query = [0x11, 0, 0, 0, 0, 0, 0, 0, 0, 0, 0, 1, 10, 0, 0, 1];
    match parse(&ipv4_igmp(&v3_query)).unwrap().transport {
        Transport::Other { payload_len, .. } => assert_eq!(payload_len, 4),
        other => panic!("{other:?}"),
    }
    assert_eq!(parse(&ipv4_igmp(&v3_query[..14])).err(), Some(ParseError::Truncated));
    match parse(&ipv4_igmp(&[0x16, 0, 0, 0, 224, 0, 0, 5])).unwrap().transport {
        Transport::Other { payload_len, .. } => assert_eq!(payload_len, 0),
        other => panic!("{other:?}"),
    }
}
