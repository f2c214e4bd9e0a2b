//! Minimal IPv4 classification: source/destination and, for TCP/UDP, the
//! ports and flags used by ACL and QoS decisions.

use vstd::prelude::*;

verus! {

/// Transport protocol as seen by policy rules.
#[derive(Debug, Clone, Copy, PartialEq, Eq, Hash, Structural)]
pub enum Protocol {
    Any,
    Tcp,
    Udp,
    Icmp,
    Other(u8),
}

pub open spec fn spec_protocol_from_ip_number(n: u8) -> Protocol {
    if n == 6 {
        Protocol::Tcp
    } else if n == 17 {
        Protocol::Udp
    } else if n == 1 {
        Protocol::Icmp
    } else {
        Protocol::Other(n)
    }
}

/// Whether traffic of protocol `p` is covered by a rule's protocol (`None`
/// and `Any` cover every protocol).
pub open spec fn spec_matches_rule(p: Protocol, rule: Option<Protocol>) -> bool {
    match rule {
        None => true,
        Some(Protocol::Any) => true,
        Some(r) => r == p,
    }
}

impl Protocol {
    /// Protocol of an IP protocol number; numbers without a name stay `Other`.
    pub fn from_ip_number(n: u8) -> (p: Protocol)
        ensures
            p == spec_protocol_from_ip_number(n),
    {
        if n == 6 {
            Protocol::Tcp
        } else if n == 17 {
            Protocol::Udp
        } else if n == 1 {
            Protocol::Icmp
        } else {
            Protocol::Other(n)
        }
    }

    pub fn matches_rule(self, rule: Option<Protocol>) -> (b: bool)
        ensures
            b == spec_matches_rule(self, rule),
    {
        match rule {
            None => true,
            Some(Protocol::Any) => true,
            Some(r) => r == self,
        }
    }
}

/// What the classifier reads from an IPv4 packet. Addresses are the
/// integers of their octets in network order.
#[derive(Debug, Clone, Copy, PartialEq, Eq, Structural)]
pub struct ParsedIpv4 {
    pub src: u32,
    pub dst: u32,
    pub protocol: Protocol,
    pub dst_port: Option<u16>,
    pub src_port: Option<u16>,
    /// TCP flags byte (offset 13 in TCP header), when protocol is TCP.
    pub tcp_flags: Option<u8>,
    /// Bytes after the L4 header (0 for pure ACK / ICMP header-only sense).
    pub l4_payload_len: usize,
}

/// Big-endian 16-bit value.
pub open spec fn be16(b0: u8, b1: u8) -> u16 {
    (b0 * 256 + b1) as u16
}

/// Big-endian 32-bit value.
pub open spec fn be32(b0: u8, b1: u8, b2: u8, b3: u8) -> u32 {
    (b0 * 16777216 + b1 * 65536 + b2 * 256 + b3) as u32
}

/// `a - b`, or zero when `b` exceeds `a`.
pub open spec fn sat_sub(a: int, b: int) -> int {
    if a >= b {
        a - b
    } else {
        0
    }
}

/// IPv4 header length announced by the first byte.
pub open spec fn header_len(b0: u8) -> int {
    (b0 % 16) * 4
}

/// Payload after a TCP header whose data-offset byte is `off_byte`.
pub open spec fn tcp_payload_len(total: int, ihl: int, off_byte: u8) -> int {
    let data_off = (off_byte / 16) * 4;
    let l4 = if data_off > 20 { data_off as int } else { 20 };
    sat_sub(total, ihl + l4)
}

pub open spec fn seq_len(p: Seq<u8>) -> int {
    p.len() as int
}

pub open spec fn as_usize(x: int) -> usize {
    x as usize
}

/// The classification of a raw packet: `None` unless it is at least 20 bytes
/// of IPv4 with a header length that fits the packet.
pub open spec fn spec_parse_ipv4(p: Seq<u8>) -> Option<ParsedIpv4> {
    if p.len() < 20 || p[0] / 16 != 4 {
        None
    } else {
        let ihl = header_len(p[0]);
        let total = seq_len(p);
        if total < ihl {
            None
        } else {
            let src = be32(p[12], p[13], p[14], p[15]);
            let dst = be32(p[16], p[17], p[18], p[19]);
            let proto = p[9];
            let ports = if total >= ihl + 4 {
                (Some(be16(p[ihl], p[ihl + 1])), Some(be16(p[ihl + 2], p[ihl + 3])))
            } else {
                (None, None)
            };
            let (protocol, sport, dport, flags, payload) = if proto == 6 && total >= ihl + 14 {
                (Protocol::Tcp, ports.0, ports.1, Some(p[ihl + 13]), tcp_payload_len(total, ihl, p[ihl + 12]))
            } else if proto == 6 && total >= ihl + 4 {
                (Protocol::Tcp, ports.0, ports.1, None, sat_sub(total, ihl + 20))
            } else if proto == 17 && total >= ihl + 4 {
                (Protocol::Udp, ports.0, ports.1, None, sat_sub(total, ihl + 8))
            } else if proto == 1 {
                (Protocol::Icmp, None, None, None, sat_sub(total, ihl + 8))
            } else {
                (Protocol::Any, None, None, None, sat_sub(total, ihl))
            };
            Some(
                ParsedIpv4 {
                    src,
                    dst,
                    protocol,
                    dst_port: dport,
                    src_port: sport,
                    tcp_flags: flags,
                    l4_payload_len: as_usize(payload),
                },
            )
        }
    }
}

pub(crate) fn read_be16(b0: u8, b1: u8) -> (r: u16)
    ensures
        r == be16(b0, b1),
{
    (b0 as u16) * 256 + (b1 as u16)
}

fn ihl_of(b0: u8) -> (r: usize)
    ensures
        r == header_len(b0),
{
    ((b0 % 16) as usize) * 4
}

fn tcp_payload(total: usize, ihl: usize, off_byte: u8) -> (r: usize)
    requires
        ihl <= 60,
    ensures
        r == tcp_payload_len(total as int, ihl as int, off_byte),
{
    let data_off = ((off_byte / 16) as usize) * 4;
    let l4_hdr = if data_off > 20 { data_off } else { 20 };
    total.saturating_sub(ihl + l4_hdr)
}

pub(crate) fn read_be32(b0: u8, b1: u8, b2: u8, b3: u8) -> (r: u32)
    ensures
        r == be32(b0, b1, b2, b3),
{
    (b0 as u32) * 16777216 + (b1 as u32) * 65536 + (b2 as u32) * 256 + (b3 as u32)
}

/// Classify an IPv4 packet.
pub fn parse_ipv4(packet: &[u8]) -> (r: Option<ParsedIpv4>)
    ensures
        r == spec_parse_ipv4(packet@),
{
    if packet.len() < 20 {
        return None;
    }
    if packet[0] / 16 != 4 {
        return None;
    }
    let ihl = ihl_of(packet[0]);
    if packet.len() < ihl {
        return None;
    }
    let src = read_be32(packet[12], packet[13], packet[14], packet[15]);
    let dst = read_be32(packet[16], packet[17], packet[18], packet[19]);
    let proto_byte = packet[9];
    let total_len = packet.len();
    let (protocol, src_port, dst_port, tcp_flags, l4_payload_len) = if proto_byte == 6
        && total_len >= ihl + 14 {
        let payload = tcp_payload(total_len, ihl, packet[ihl + 12]);
        (
            Protocol::Tcp,
            Some(read_be16(packet[ihl], packet[ihl + 1])),
            Some(read_be16(packet[ihl + 2], packet[ihl + 3])),
            Some(packet[ihl + 13]),
            payload,
        )
    } else if proto_byte == 6 && total_len >= ihl + 4 {
        (
            Protocol::Tcp,
            Some(read_be16(packet[ihl], packet[ihl + 1])),
            Some(read_be16(packet[ihl + 2], packet[ihl + 3])),
            None,
            total_len.saturating_sub(ihl + 20),
        )
    } else if proto_byte == 17 && total_len >= ihl + 4 {
        (
            Protocol::Udp,
            Some(read_be16(packet[ihl], packet[ihl + 1])),
            Some(read_be16(packet[ihl + 2], packet[ihl + 3])),
            None,
            total_len.saturating_sub(ihl + 8),
        )
    } else if proto_byte == 1 {
        (Protocol::Icmp, None, None, None, total_len.saturating_sub(ihl + 8))
    } else {
        (Protocol::Any, None, None, None, total_len.saturating_sub(ihl))
    };
    Some(ParsedIpv4 { src, dst, protocol, dst_port, src_port, tcp_flags, l4_payload_len })
}

/// Classification looks only at what the IPv4 header announces and what the
/// packet holds: a TCP packet reports both ports exactly when its first four
/// transport bytes are present, and flags only when the flags byte is.
pub proof fn law_tcp_ports_need_transport_bytes(p: Seq<u8>)
    requires
        spec_parse_ipv4(p) matches Some(r) && r.protocol == Protocol::Tcp,
    ensures
        spec_parse_ipv4(p)->Some_0.src_port is Some,
        spec_parse_ipv4(p)->Some_0.dst_port is Some,
        spec_parse_ipv4(p)->Some_0.tcp_flags is Some <==> p.len() >= header_len(p[0]) + 14,
{
}

} // verus!
