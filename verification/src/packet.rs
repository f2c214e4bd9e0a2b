//! Parsed view of an IP packet: addresses, fragmentation and the transport
//! header, read once from the raw bytes.

use crate::ipv4::{
    as_usize, be16, be32, read_be16, read_be32, sat_sub, seq_len, spec_protocol_from_ip_number,
    Protocol,
};
use crate::slicing::{
    icmpv4_header_len, icmpv4_slice, icmpv6_accepts, icmpv6_slice, igmp_lengths, igmp_slice_of,
    ip_slice_of, slice_ip, tcp_accepts, tcp_data_offset_len, tcp_header_len, udp_datagram_len,
    udp_slice_result, IpFault, IpParts, UdpFault,
};
use vstd::prelude::*;

verus! {

/// The TCP flag bits the data plane looks at.
#[derive(Debug, Clone, Copy, PartialEq, Eq, Hash, Structural)]
pub struct TcpFlags(pub u8);

pub const TCP_FIN: u8 = 0x01;
pub const TCP_SYN: u8 = 0x02;
pub const TCP_RST: u8 = 0x04;
pub const TCP_PSH: u8 = 0x08;
pub const TCP_ACK: u8 = 0x10;
pub const TCP_URG: u8 = 0x20;

impl TcpFlags {
    pub open spec fn has(self, bit: u8) -> bool {
        self.0 & bit != 0
    }

    pub fn fin(self) -> (b: bool)
        ensures
            b == self.has(TCP_FIN),
    {
        self.0 & TCP_FIN != 0
    }

    pub fn syn(self) -> (b: bool)
        ensures
            b == self.has(TCP_SYN),
    {
        self.0 & TCP_SYN != 0
    }

    pub fn rst(self) -> (b: bool)
        ensures
            b == self.has(TCP_RST),
    {
        self.0 & TCP_RST != 0
    }

    pub fn ack(self) -> (b: bool)
        ensures
            b == self.has(TCP_ACK),
    {
        self.0 & TCP_ACK != 0
    }
}

/// Where a packet sits in a fragmented datagram.
#[derive(Debug, Clone, Copy, PartialEq, Eq, Structural)]
pub enum Fragmentation {
    /// Not fragmented.
    Unfragmented,
    /// The fragment at offset zero, which carries the transport header.
    First { identification: u32, more: bool },
    /// A fragment at a non-zero offset (in 8-byte units), with no transport header.
    Later { identification: u32, offset: u16, more: bool },
}

impl Fragmentation {
    pub fn is_later(&self) -> (b: bool)
        ensures
            b == (*self is Later),
    {
        matches!(*self, Fragmentation::Later { .. })
    }
}

/// The IP header fields the data plane reads. Addresses are the integers of
/// their octets in network order.
#[derive(Debug, Clone, Copy, PartialEq, Eq, Structural)]
pub enum IpMeta {
    V4 { src: u32, dst: u32, protocol: u8, identification: u16, header_len: usize, ttl: u8 },
    V6 {
        src: u128,
        dst: u128,
        next_header: u8,
        hop_limit: u8,
        header_len: usize,
        identification: Option<u32>,
    },
}

pub open spec fn spec_ip_protocol(ip: IpMeta) -> u8 {
    match ip {
        IpMeta::V4 { protocol, .. } => protocol,
        IpMeta::V6 { next_header, .. } => next_header,
    }
}

pub open spec fn spec_ip_header_len(ip: IpMeta) -> usize {
    match ip {
        IpMeta::V4 { header_len, .. } => header_len,
        IpMeta::V6 { header_len, .. } => header_len,
    }
}

impl IpMeta {
    /// Protocol number of the payload (after IPv6 extension headers).
    pub fn ip_protocol(&self) -> (p: u8)
        ensures
            p == spec_ip_protocol(*self),
    {
        match *self {
            IpMeta::V4 { protocol, .. } => protocol,
            IpMeta::V6 { next_header, .. } => next_header,
        }
    }

    pub fn v4_src(&self) -> (a: Option<u32>)
        ensures
            a == (match *self {
                IpMeta::V4 { src, .. } => Some(src),
                IpMeta::V6 { .. } => None,
            }),
    {
        match *self {
            IpMeta::V4 { src, .. } => Some(src),
            IpMeta::V6 { .. } => None,
        }
    }

    pub fn v4_dst(&self) -> (a: Option<u32>)
        ensures
            a == (match *self {
                IpMeta::V4 { dst, .. } => Some(dst),
                IpMeta::V6 { .. } => None,
            }),
    {
        match *self {
            IpMeta::V4 { dst, .. } => Some(dst),
            IpMeta::V6 { .. } => None,
        }
    }

    pub fn header_len(&self) -> (n: usize)
        ensures
            n == spec_ip_header_len(*self),
    {
        match *self {
            IpMeta::V4 { header_len, .. } => header_len,
            IpMeta::V6 { header_len, .. } => header_len,
        }
    }
}

/// The transport header of a packet, as far as it could be read.
#[derive(Debug, Clone, Copy, PartialEq, Eq, Structural)]
pub enum Transport {
    Tcp {
        src_port: u16,
        dst_port: u16,
        flags: TcpFlags,
        seq: u32,
        ack: u32,
        header_len: usize,
        payload_len: usize,
    },
    Udp { src_port: u16, dst_port: u16, payload_len: usize },
    Icmpv4 {
        type_u8: u8,
        code: u8,
        echo_id: Option<u16>,
        echo_seq: Option<u16>,
        payload_len: usize,
    },
    Icmpv6 { type_u8: u8, code: u8, payload_len: usize },
    Other { protocol: u8, payload_len: usize },
    /// A non-first fragment: its bytes hold no transport header.
    LaterFragment { protocol: u8, identification: u32, offset: u16, more: bool },
}

pub open spec fn spec_src_port(t: Transport) -> Option<u16> {
    match t {
        Transport::Tcp { src_port, .. } => Some(src_port),
        Transport::Udp { src_port, .. } => Some(src_port),
        _ => None,
    }
}

pub open spec fn spec_dst_port(t: Transport) -> Option<u16> {
    match t {
        Transport::Tcp { dst_port, .. } => Some(dst_port),
        Transport::Udp { dst_port, .. } => Some(dst_port),
        _ => None,
    }
}

/// Bytes after the transport header; a later fragment reports none.
pub open spec fn spec_l4_payload_len(t: Transport) -> usize {
    match t {
        Transport::Tcp { payload_len, .. } => payload_len,
        Transport::Udp { payload_len, .. } => payload_len,
        Transport::Icmpv4 { payload_len, .. } => payload_len,
        Transport::Icmpv6 { payload_len, .. } => payload_len,
        Transport::Other { payload_len, .. } => payload_len,
        Transport::LaterFragment { .. } => 0,
    }
}

impl Transport {
    pub fn src_port(&self) -> (p: Option<u16>)
        ensures
            p == spec_src_port(*self),
    {
        match *self {
            Transport::Tcp { src_port, .. } => Some(src_port),
            Transport::Udp { src_port, .. } => Some(src_port),
            _ => None,
        }
    }

    pub fn dst_port(&self) -> (p: Option<u16>)
        ensures
            p == spec_dst_port(*self),
    {
        match *self {
            Transport::Tcp { dst_port, .. } => Some(dst_port),
            Transport::Udp { dst_port, .. } => Some(dst_port),
            _ => None,
        }
    }

    pub fn tcp_flags(&self) -> (f: Option<TcpFlags>)
        ensures
            f == (match *self {
                Transport::Tcp { flags, .. } => Some(flags),
                _ => None,
            }),
    {
        match *self {
            Transport::Tcp { flags, .. } => Some(flags),
            _ => None,
        }
    }

    pub fn l4_payload_len(&self) -> (n: usize)
        ensures
            n == spec_l4_payload_len(*self),
    {
        match *self {
            Transport::Tcp { payload_len, .. } => payload_len,
            Transport::Udp { payload_len, .. } => payload_len,
            Transport::Icmpv4 { payload_len, .. } => payload_len,
            Transport::Icmpv6 { payload_len, .. } => payload_len,
            Transport::Other { payload_len, .. } => payload_len,
            Transport::LaterFragment { .. } => 0,
        }
    }

    pub fn is_later_fragment(&self) -> (b: bool)
        ensures
            b == (*self is LaterFragment),
    {
        matches!(*self, Transport::LaterFragment { .. })
    }
}

/// Why a packet could not be parsed.
#[derive(Debug, Clone, Copy, PartialEq, Eq, Structural)]
pub enum ParseError {
    Truncated,
    UnsupportedVersion(u8),
    InvalidIpHeader,
    InvalidIhl,
    InvalidTotalLength,
    MalformedTcp,
    MalformedUdp,
    MalformedTransport,
}

pub open spec fn spec_drop_reason(e: ParseError) -> Seq<char> {
    match e {
        ParseError::Truncated => "truncated"@,
        ParseError::UnsupportedVersion(_) => "unsupported_ip_version"@,
        ParseError::InvalidIpHeader => "malformed_ip"@,
        ParseError::InvalidIhl => "invalid_ihl"@,
        ParseError::InvalidTotalLength => "invalid_ip_len"@,
        ParseError::MalformedTcp => "malformed_tcp"@,
        ParseError::MalformedUdp => "malformed_udp"@,
        ParseError::MalformedTransport => "malformed_transport"@,
    }
}

impl ParseError {
    /// Label under which a packet refused for this reason is counted.
    pub fn drop_reason(self) -> (s: &'static str)
        ensures
            s@ == spec_drop_reason(self),
    {
        match self {
            ParseError::Truncated => "truncated",
            ParseError::UnsupportedVersion(_) => "unsupported_ip_version",
            ParseError::InvalidIpHeader => "malformed_ip",
            ParseError::InvalidIhl => "invalid_ihl",
            ParseError::InvalidTotalLength => "invalid_ip_len",
            ParseError::MalformedTcp => "malformed_tcp",
            ParseError::MalformedUdp => "malformed_udp",
            ParseError::MalformedTransport => "malformed_transport",
        }
    }
}

/// A parsed packet: the raw bytes and what was read from them.
#[derive(Debug, Clone, Copy)]
pub struct Packet<'a> {
    pub raw: &'a [u8],
    /// Length announced by the IP header (trailing bytes excluded).
    pub wire_len: usize,
    pub ip: IpMeta,
    pub fragmentation: Fragmentation,
    pub transport: Transport,
}

impl<'a> Packet<'a> {
    /// The protocol that policy rules match this packet against.
    pub fn policy_protocol(&self) -> (p: Protocol)
        ensures
            p == spec_protocol_from_ip_number(spec_ip_protocol(self.ip)),
    {
        Protocol::from_ip_number(self.ip.ip_protocol())
    }
}

// ---------------------------------------------------------------------------
// Field layout
// ---------------------------------------------------------------------------

pub open spec fn be16_at(s: Seq<u8>, i: int) -> u16 {
    be16(s[i], s[i + 1])
}

pub open spec fn be32_at(s: Seq<u8>, i: int) -> u32 {
    be32(s[i], s[i + 1], s[i + 2], s[i + 3])
}

pub open spec fn be64_at(s: Seq<u8>, i: int) -> int {
    be32_at(s, i) * 0x1_0000_0000 + be32_at(s, i + 4)
}

pub open spec fn be128_at(s: Seq<u8>, i: int) -> u128 {
    (be64_at(s, i) * 0x1_0000_0000_0000_0000 + be64_at(s, i + 8)) as u128
}

fn be16_from(s: &[u8], i: usize) -> (r: u16)
    requires
        i + 2 <= s.len(),
    ensures
        r == be16_at(s@, i as int),
{
    read_be16(s[i], s[i + 1])
}

fn be32_from(s: &[u8], i: usize) -> (r: u32)
    requires
        i + 4 <= s.len(),
    ensures
        r == be32_at(s@, i as int),
{
    read_be32(s[i], s[i + 1], s[i + 2], s[i + 3])
}

fn be128_from(s: &[u8], i: usize) -> (r: u128)
    requires
        i + 16 <= s.len(),
    ensures
        r == be128_at(s@, i as int),
{
    let a = be32_from(s, i) as u128;
    let b = be32_from(s, i + 4) as u128;
    let c = be32_from(s, i + 8) as u128;
    let d = be32_from(s, i + 12) as u128;
    let hi = a * 0x1_0000_0000 + b;
    let lo = c * 0x1_0000_0000 + d;
    hi * 0x1_0000_0000_0000_0000 + lo
}

// ---------------------------------------------------------------------------
// Transport headers
// ---------------------------------------------------------------------------

pub open spec fn usize_sat_sub(a: usize, b: usize) -> usize {
    as_usize(sat_sub(a as int, b as int))
}

/// The TCP header of `seg`, whose header is `hl` bytes long.
pub open spec fn tcp_transport(seg: Seq<u8>, hl: usize) -> Transport {
    Transport::Tcp {
        src_port: be16_at(seg, 0),
        dst_port: be16_at(seg, 2),
        flags: TcpFlags(seg[13] & 0x3f),
        seq: be32_at(seg, 4),
        ack: be32_at(seg, 8),
        header_len: hl,
        payload_len: as_usize(seq_len(seg) - hl),
    }
}

/// The UDP header of a datagram `len` bytes long.
pub open spec fn udp_transport(seg: Seq<u8>, len: int) -> Transport {
    Transport::Udp {
        src_port: be16_at(seg, 0),
        dst_port: be16_at(seg, 2),
        payload_len: as_usize(len - 8),
    }
}

/// Echo request or reply, which carry an identifier and a sequence number.
pub open spec fn icmpv4_is_echo(seg: Seq<u8>) -> bool {
    (seg[0] == 0 || seg[0] == 8) && seg[1] == 0
}

pub open spec fn icmpv4_transport(seg: Seq<u8>, hl: usize) -> Transport {
    Transport::Icmpv4 {
        type_u8: seg[0],
        code: seg[1],
        echo_id: if icmpv4_is_echo(seg) {
            Some(be16_at(seg, 4))
        } else {
            None
        },
        echo_seq: if icmpv4_is_echo(seg) {
            Some(be16_at(seg, 6))
        } else {
            None
        },
        payload_len: as_usize(seq_len(seg) - hl),
    }
}

pub open spec fn icmpv6_transport(seg: Seq<u8>) -> Transport {
    Transport::Icmpv6 { type_u8: seg[0], code: seg[1], payload_len: as_usize(seq_len(seg) - 8) }
}

pub open spec fn other_transport(seg: Seq<u8>, n: u8) -> Transport {
    Transport::Other { protocol: n, payload_len: as_usize(seq_len(seg)) }
}

/// The transport header of an unfragmented payload with protocol `n`, or
/// the error that refuses the packet when that header is malformed.
pub open spec fn sliced_transport(seg: Seq<u8>, n: u8) -> Result<Transport, ParseError> {
    if n == 1 {
        match icmpv4_header_len(seg) {
            Some(hl) => Ok(icmpv4_transport(seg, hl)),
            None => Err(ParseError::Truncated),
        }
    } else if n == 17 {
        match udp_slice_result(seg) {
            Ok(len) => Ok(udp_transport(seg, len)),
            Err(UdpFault::Header) => Err(ParseError::MalformedUdp),
            Err(UdpFault::Payload) => Err(ParseError::Truncated),
        }
    } else if n == 6 {
        if tcp_accepts(seg) {
            Ok(tcp_transport(seg, as_usize(tcp_data_offset_len(seg))))
        } else {
            Err(ParseError::MalformedTcp)
        }
    } else if n == 58 {
        if icmpv6_accepts(seg) {
            Ok(icmpv6_transport(seg))
        } else {
            Err(ParseError::Truncated)
        }
    } else if n == 2 {
        match igmp_slice_of(seg) {
            Some((len, hl)) => Ok(
                Transport::Other { protocol: 2, payload_len: usize_sat_sub(len, hl) },
            ),
            None => Err(ParseError::Truncated),
        }
    } else {
        Ok(other_transport(seg, n))
    }
}

/// The transport header read, where it can be, from the first fragment of a
/// datagram with protocol `n`; anything unreadable is reported as `Other`.
pub open spec fn guessed_transport(seg: Seq<u8>, n: u8) -> Transport {
    if seg.len() == 0 {
        other_transport(seg, n)
    } else if n == 6 {
        if tcp_accepts(seg) {
            tcp_transport(seg, as_usize(tcp_data_offset_len(seg)))
        } else {
            other_transport(seg, n)
        }
    } else if n == 17 {
        match udp_slice_result(seg) {
            Ok(len) => udp_transport(seg, len),
            Err(_) => other_transport(seg, n),
        }
    } else if n == 1 {
        match icmpv4_header_len(seg) {
            Some(hl) => icmpv4_transport(seg, hl),
            None => other_transport(seg, n),
        }
    } else if n == 58 {
        if icmpv6_accepts(seg) {
            icmpv6_transport(seg)
        } else {
            other_transport(seg, n)
        }
    } else {
        other_transport(seg, n)
    }
}

proof fn udp_kept_len_fits(seg: Seq<u8>)
    requires
        seg.len() <= usize::MAX,
    ensures
        udp_slice_result(seg) matches Ok(n) ==> 8 <= n <= seg.len(),
{
}

fn tcp_transport_from(seg: &[u8], hl: usize) -> (t: Transport)
    requires
        20 <= hl <= seg@.len(),
    ensures
        t == tcp_transport(seg@, hl),
{
    Transport::Tcp {
        src_port: be16_from(seg, 0),
        dst_port: be16_from(seg, 2),
        flags: TcpFlags(seg[13] & 0x3f),
        seq: be32_from(seg, 4),
        ack: be32_from(seg, 8),
        header_len: hl,
        payload_len: seg.len() - hl,
    }
}

fn udp_transport_from(seg: &[u8], len: usize) -> (t: Transport)
    requires
        8 <= len,
        8 <= seg@.len(),
    ensures
        t == udp_transport(seg@, len as int),
{
    Transport::Udp { src_port: be16_from(seg, 0), dst_port: be16_from(seg, 2), payload_len: len - 8 }
}

fn icmpv4_transport_from(seg: &[u8], hl: usize) -> (t: Transport)
    requires
        8 <= hl <= seg@.len(),
    ensures
        t == icmpv4_transport(seg@, hl),
{
    let echo = (seg[0] == 0 || seg[0] == 8) && seg[1] == 0;
    Transport::Icmpv4 {
        type_u8: seg[0],
        code: seg[1],
        echo_id: if echo {
            Some(be16_from(seg, 4))
        } else {
            None
        },
        echo_seq: if echo {
            Some(be16_from(seg, 6))
        } else {
            None
        },
        payload_len: seg.len() - hl,
    }
}

fn icmpv6_transport_from(seg: &[u8]) -> (t: Transport)
    requires
        8 <= seg@.len(),
    ensures
        t == icmpv6_transport(seg@),
{
    Transport::Icmpv6 { type_u8: seg[0], code: seg[1], payload_len: seg.len() - 8 }
}

fn other_transport_from(seg: &[u8], n: u8) -> (t: Transport)
    ensures
        t == other_transport(seg@, n),
{
    Transport::Other { protocol: n, payload_len: seg.len() }
}

fn decode_transport(seg: &[u8], n: u8) -> (r: Result<Transport, ParseError>)
    ensures
        r == sliced_transport(seg@, n),
{
    if n == 1 {
        match icmpv4_slice(seg) {
            Some(hl) => Ok(icmpv4_transport_from(seg, hl)),
            None => Err(ParseError::Truncated),
        }
    } else if n == 17 {
        proof {
            assert(seg@.len() == seg.len());
            udp_kept_len_fits(seg@);
        }
        match udp_datagram_len(seg) {
            Ok(len) => Ok(udp_transport_from(seg, len)),
            Err(UdpFault::Header) => Err(ParseError::MalformedUdp),
            Err(UdpFault::Payload) => Err(ParseError::Truncated),
        }
    } else if n == 6 {
        match tcp_header_len(seg) {
            Some(hl) => Ok(tcp_transport_from(seg, hl)),
            None => Err(ParseError::MalformedTcp),
        }
    } else if n == 58 {
        if icmpv6_slice(seg) {
            Ok(icmpv6_transport_from(seg))
        } else {
            Err(ParseError::Truncated)
        }
    } else if n == 2 {
        match igmp_lengths(seg) {
            Some((len, hl)) => Ok(Transport::Other { protocol: 2, payload_len: len.saturating_sub(hl) }),
            None => Err(ParseError::Truncated),
        }
    } else {
        Ok(other_transport_from(seg, n))
    }
}

fn guess_transport(seg: &[u8], n: u8) -> (t: Transport)
    ensures
        t == guessed_transport(seg@, n),
{
    if seg.len() == 0 {
        other_transport_from(seg, n)
    } else if n == 6 {
        match tcp_header_len(seg) {
            Some(hl) => tcp_transport_from(seg, hl),
            None => other_transport_from(seg, n),
        }
    } else if n == 17 {
        proof {
            assert(seg@.len() == seg.len());
            udp_kept_len_fits(seg@);
        }
        match udp_datagram_len(seg) {
            Ok(len) => udp_transport_from(seg, len),
            Err(_) => other_transport_from(seg, n),
        }
    } else if n == 1 {
        match icmpv4_slice(seg) {
            Some(hl) => icmpv4_transport_from(seg, hl),
            None => other_transport_from(seg, n),
        }
    } else if n == 58 {
        if icmpv6_slice(seg) {
            icmpv6_transport_from(seg)
        } else {
            other_transport_from(seg, n)
        }
    } else {
        other_transport_from(seg, n)
    }
}


// ---------------------------------------------------------------------------
// IP layer
// ---------------------------------------------------------------------------

pub open spec fn fault_error(f: IpFault) -> ParseError {
    match f {
        IpFault::Len => ParseError::Truncated,
        IpFault::PacketLen => ParseError::InvalidTotalLength,
        IpFault::UnsupportedVersion(v) => ParseError::UnsupportedVersion(v),
        IpFault::HeaderLength => ParseError::InvalidIhl,
        IpFault::Header => ParseError::InvalidIpHeader,
    }
}

fn map_slice_err(f: IpFault) -> (e: ParseError)
    ensures
        e == fault_error(f),
{
    match f {
        IpFault::Len => ParseError::Truncated,
        IpFault::PacketLen => ParseError::InvalidTotalLength,
        IpFault::UnsupportedVersion(v) => ParseError::UnsupportedVersion(v),
        IpFault::HeaderLength => ParseError::InvalidIhl,
        IpFault::Header => ParseError::InvalidIpHeader,
    }
}

/// The fragment offset field of an IPv4 header, in 8-byte units.
pub open spec fn v4_frag_offset(d: Seq<u8>) -> u16 {
    be16(d[6] % 32, d[7])
}

/// The more-fragments flag of an IPv4 header.
pub open spec fn v4_more_fragments(d: Seq<u8>) -> bool {
    (d[6] / 32) % 2 == 1
}

pub open spec fn v4_fragmentation(d: Seq<u8>) -> Fragmentation {
    let offset = v4_frag_offset(d);
    let more = v4_more_fragments(d);
    let id = be16_at(d, 4) as u32;
    if offset == 0 && !more {
        Fragmentation::Unfragmented
    } else if offset == 0 {
        Fragmentation::First { identification: id, more }
    } else {
        Fragmentation::Later { identification: id, offset, more }
    }
}

/// The transport of a packet whose fragmentation is `frag` and whose IP
/// payload `payload` carries protocol `n`: an unfragmented payload is read
/// strictly, a first fragment as far as it can be, a later one not at all.
pub open spec fn packet_transport(
    payload: Seq<u8>,
    n: u8,
    fragmented: bool,
    frag: Fragmentation,
) -> Result<Transport, ParseError> {
    let sliced = if fragmented {
        Ok(other_transport(payload, n))
    } else {
        sliced_transport(payload, n)
    };
    match sliced {
        Err(e) => Err(e),
        Ok(t) => match frag {
            Fragmentation::Later { identification, offset, more } => Ok(
                Transport::LaterFragment { protocol: n, identification, offset, more },
            ),
            _ => if fragmented {
                Ok(guessed_transport(payload, n))
            } else {
                Ok(t)
            },
        },
    }
}

/// What an IPv4 packet accepted by the IP layer parses to: wire length, IP
/// fields, fragmentation and transport.
pub open spec fn v4_packet(d: Seq<u8>, p: IpParts) -> Result<
    (usize, IpMeta, Fragmentation, Transport),
    ParseError,
> {
    let total = be16_at(d, 2) as int;
    if d.len() < 20 || total > d.len() || p.payload_len > total {
        Err(ParseError::InvalidIpHeader)
    } else {
        let payload = d.subrange(total - p.payload_len, total);
        let frag = v4_fragmentation(d);
        let ip = IpMeta::V4 {
            src: be32_at(d, 12),
            dst: be32_at(d, 16),
            protocol: p.ip_number,
            identification: be16_at(d, 4),
            header_len: ((d[0] % 16) * 4) as usize,
            ttl: d[8],
        };
        match packet_transport(payload, p.ip_number, p.fragmented, frag) {
            Err(e) => Err(e),
            Ok(t) => Ok((total as usize, ip, frag, t)),
        }
    }
}

pub open spec fn is_v6_ext(h: u8) -> bool {
    h == 0 || h == 43 || h == 60 || h == 44 || h == 51
}

/// Length of the IPv6 extension header of type `h` at the start of `e`.
pub open spec fn v6_ext_len(e: Seq<u8>, h: u8) -> int {
    if h == 44 {
        8
    } else if h == 51 {
        (e[1] + 2) * 4
    } else {
        (e[1] + 1) * 8
    }
}

/// Identification, offset and more-fragments flag of the fragment header at
/// the start of `e`.
pub open spec fn v6_frag_fields(e: Seq<u8>) -> (u32, u16, bool) {
    (be32_at(e, 4), (be16_at(e, 2) / 8) as u16, e[3] % 2 == 1)
}

/// The fields of the last fragment header in the IPv6 extension chain `e`,
/// whose first header has type `h`.
pub open spec fn v6_fragment(e: Seq<u8>, h: u8) -> Option<(u32, u16, bool)>
    decreases e.len(),
{
    if !is_v6_ext(h) || e.len() < 8 || v6_ext_len(e, h) > e.len() {
        None
    } else {
        let rest = v6_fragment(e.subrange(v6_ext_len(e, h), e.len() as int), e[0]);
        if rest is Some {
            rest
        } else if h == 44 {
            Some(v6_frag_fields(e))
        } else {
            None
        }
    }
}

/// End of the IPv6 packet: the announced payload length after the fixed
/// header, or every byte when that length is zero.
pub open spec fn v6_end(d: Seq<u8>) -> int {
    let pl = be16_at(d, 4) as int;
    if pl == 0 && d.len() > 40 {
        d.len() as int
    } else {
        40 + pl
    }
}

pub open spec fn v6_fragmentation(frag: Option<(u32, u16, bool)>, fragmented: bool) -> Fragmentation {
    let (id, offset, more) = match frag {
        Some(f) => f,
        None => (0u32, 0u16, false),
    };
    if !fragmented {
        Fragmentation::Unfragmented
    } else if offset == 0 {
        Fragmentation::First { identification: id, more }
    } else {
        Fragmentation::Later { identification: id, offset, more }
    }
}

/// What an IPv6 packet accepted by the IP layer parses to.
pub open spec fn v6_packet(d: Seq<u8>, p: IpParts) -> Result<
    (usize, IpMeta, Fragmentation, Transport),
    ParseError,
> {
    if d.len() < 40 || v6_end(d) > d.len() || p.payload_len > v6_end(d) - 40 {
        Err(ParseError::InvalidIpHeader)
    } else {
        let start = v6_end(d) - p.payload_len;
        let payload = d.subrange(start, v6_end(d));
        let frag_hdr = v6_fragment(d.subrange(40, start), d[6]);
        let frag = v6_fragmentation(frag_hdr, p.fragmented);
        let ip = IpMeta::V6 {
            src: be128_at(d, 8),
            dst: be128_at(d, 24),
            next_header: p.ip_number,
            hop_limit: d[7],
            header_len: as_usize(sat_sub(d.len() as int, p.payload_len as int)),
            identification: match frag_hdr {
                Some(f) => Some(f.0),
                None => None,
            },
        };
        match packet_transport(payload, p.ip_number, p.fragmented, frag) {
            Err(e) => Err(e),
            Ok(t) => Ok(((be16_at(d, 4) + 40) as usize, ip, frag, t)),
        }
    }
}

/// What `data` parses to, given what the IP layer reported about it.
pub open spec fn spec_parse_with(data: Seq<u8>, ip: Result<IpParts, IpFault>) -> Result<
    (usize, IpMeta, Fragmentation, Transport),
    ParseError,
> {
    if data.len() == 0 {
        Err(ParseError::Truncated)
    } else if data[0] / 16 != 4 && data[0] / 16 != 6 {
        Err(ParseError::UnsupportedVersion(data[0] / 16))
    } else {
        match ip {
            Err(f) => Err(fault_error(f)),
            Ok(p) => if p.version6 {
                v6_packet(data, p)
            } else {
                v4_packet(data, p)
            },
        }
    }
}

/// The parts of a packet, for comparison with the specifications.
pub open spec fn packet_parts(p: Packet) -> (usize, IpMeta, Fragmentation, Transport) {
    (p.wire_len, p.ip, p.fragmentation, p.transport)
}

pub open spec fn parse_matches(data: Seq<u8>, r: Result<Packet, ParseError>, s: Result<
    (usize, IpMeta, Fragmentation, Transport),
    ParseError,
>) -> bool {
    match r {
        Ok(p) => p.raw@ == data && s == Ok::<(usize, IpMeta, Fragmentation, Transport), ParseError>(
            packet_parts(p),
        ),
        Err(e) => s == Err::<(usize, IpMeta, Fragmentation, Transport), ParseError>(e),
    }
}

fn packet_transport_from(
    payload: &[u8],
    n: u8,
    fragmented: bool,
    frag: Fragmentation,
) -> (r: Result<Transport, ParseError>)
    ensures
        r == packet_transport(payload@, n, fragmented, frag),
{
    let sliced = if fragmented {
        Ok(other_transport_from(payload, n))
    } else {
        decode_transport(payload, n)
    };
    match sliced {
        Err(e) => Err(e),
        Ok(t) => match frag {
            Fragmentation::Later { identification, offset, more } => Ok(
                Transport::LaterFragment { protocol: n, identification, offset, more },
            ),
            _ => if fragmented {
                Ok(guess_transport(payload, n))
            } else {
                Ok(t)
            },
        },
    }
}

fn v4_fragmentation_from(d: &[u8]) -> (f: Fragmentation)
    requires
        d.len() >= 20,
    ensures
        f == v4_fragmentation(d@),
{
    let offset = read_be16(d[6] % 32, d[7]);
    let more = (d[6] / 32) % 2 == 1;
    let id = be16_from(d, 4) as u32;
    if offset == 0 && !more {
        Fragmentation::Unfragmented
    } else if offset == 0 {
        Fragmentation::First { identification: id, more }
    } else {
        Fragmentation::Later { identification: id, offset, more }
    }
}

fn parse_ipv4<'a>(d: &'a [u8], p: IpParts) -> (r: Result<Packet<'a>, ParseError>)
    ensures
        parse_matches(d@, r, v4_packet(d@, p)),
{
    if d.len() < 20 {
        return Err(ParseError::InvalidIpHeader);
    }
    let total = be16_from(d, 2) as usize;
    if total > d.len() || p.payload_len > total {
        return Err(ParseError::InvalidIpHeader);
    }
    let payload = vstd::slice::slice_subrange(d, total - p.payload_len, total);
    let frag = v4_fragmentation_from(d);
    let ip = IpMeta::V4 {
        src: be32_from(d, 12),
        dst: be32_from(d, 16),
        protocol: p.ip_number,
        identification: be16_from(d, 4),
        header_len: ((d[0] % 16) as usize) * 4,
        ttl: d[8],
    };
    match packet_transport_from(payload, p.ip_number, p.fragmented, frag) {
        Err(e) => Err(e),
        Ok(t) => Ok(Packet { raw: d, wire_len: total, ip, fragmentation: frag, transport: t }),
    }
}

fn v6_ext_len_from(e: &[u8], h: u8) -> (n: usize)
    requires
        e.len() >= 8,
    ensures
        n == v6_ext_len(e@, h),
{
    if h == 44 {
        8
    } else if h == 51 {
        ((e[1] as usize) + 2) * 4
    } else {
        ((e[1] as usize) + 1) * 8
    }
}

fn v6_frag_fields_from(e: &[u8]) -> (f: (u32, u16, bool))
    requires
        e.len() >= 8,
    ensures
        f == v6_frag_fields(e@),
{
    (be32_from(e, 4), be16_from(e, 2) / 8, e[3] % 2 == 1)
}

/// Later fragment headers take precedence over earlier ones.
pub open spec fn prefer_later(
    earlier: Option<(u32, u16, bool)>,
    later: Option<(u32, u16, bool)>,
) -> Option<(u32, u16, bool)> {
    if later is Some {
        later
    } else {
        earlier
    }
}

fn v6_fragment_from(e: &[u8], first: u8) -> (f: Option<(u32, u16, bool)>)
    ensures
        f == v6_fragment(e@, first),
{
    let mut pos: usize = 0;
    let mut h: u8 = first;
    let mut found: Option<(u32, u16, bool)> = None;
    proof {
        assert(e@.subrange(0, e@.len() as int) =~= e@);
    }
    while pos < e.len()
        invariant_except_break
            pos <= e@.len(),
            v6_fragment(e@, first) == prefer_later(found, v6_fragment(e@.subrange(pos as int, e@.len() as int), h)),
        ensures
            v6_fragment(e@, first) == found,
        decreases e@.len() - pos,
    {
        let rest = vstd::slice::slice_subrange(e, pos, e.len());
        assert(rest@ == e@.subrange(pos as int, e@.len() as int));
        if !(h == 0 || h == 43 || h == 60 || h == 44 || h == 51) || rest.len() < 8 {
            break;
        }
        let n = v6_ext_len_from(rest, h);
        if n > rest.len() {
            break;
        }
        let next = rest[0];
        if h == 44 {
            found = Some(v6_frag_fields_from(rest));
        }
        proof {
            assert(rest@.subrange(n as int, rest@.len() as int) =~= e@.subrange(pos + n, e@.len() as int));
        }
        pos = pos + n;
        h = next;
    }
    found
}


fn parse_ipv6<'a>(d: &'a [u8], p: IpParts) -> (r: Result<Packet<'a>, ParseError>)
    ensures
        parse_matches(d@, r, v6_packet(d@, p)),
{
    if d.len() < 40 {
        return Err(ParseError::InvalidIpHeader);
    }
    let pl = be16_from(d, 4) as usize;
    let end = if pl == 0 && d.len() > 40 {
        d.len()
    } else {
        40 + pl
    };
    if end > d.len() || p.payload_len > end - 40 {
        return Err(ParseError::InvalidIpHeader);
    }
    let start = end - p.payload_len;
    let payload = vstd::slice::slice_subrange(d, start, end);
    let exts = vstd::slice::slice_subrange(d, 40, start);
    let frag_hdr = v6_fragment_from(exts, d[6]);
    let (id, offset, more) = match frag_hdr {
        Some(f) => f,
        None => (0u32, 0u16, false),
    };
    let frag = if !p.fragmented {
        Fragmentation::Unfragmented
    } else if offset == 0 {
        Fragmentation::First { identification: id, more }
    } else {
        Fragmentation::Later { identification: id, offset, more }
    };
    let ip = IpMeta::V6 {
        src: be128_from(d, 8),
        dst: be128_from(d, 24),
        next_header: p.ip_number,
        hop_limit: d[7],
        header_len: d.len().saturating_sub(p.payload_len),
        identification: match frag_hdr {
            Some(f) => Some(f.0),
            None => None,
        },
    };
    match packet_transport_from(payload, p.ip_number, p.fragmented, frag) {
        Err(e) => Err(e),
        Ok(t) => Ok(Packet { raw: d, wire_len: pl + 40, ip, fragmentation: frag, transport: t }),
    }
}

/// Assemble a packet from `data` and what the IP layer reported about it.
pub fn packet_from_ip_slice<'a>(data: &'a [u8], ip: Result<IpParts, IpFault>) -> (r: Result<
    Packet<'a>,
    ParseError,
>)
    ensures
        parse_matches(data@, r, spec_parse_with(data@, ip)),
{
    if data.len() == 0 {
        return Err(ParseError::Truncated);
    }
    let version = data[0] / 16;
    if version != 4 && version != 6 {
        return Err(ParseError::UnsupportedVersion(version));
    }
    match ip {
        Err(f) => Err(map_slice_err(f)),
        Ok(p) => if p.version6 {
            parse_ipv6(data, p)
        } else {
            parse_ipv4(data, p)
        },
    }
}

/// Parse an IP packet. Empty input is `Truncated`; a version other than 4 or
/// 6 is refused as unsupported before the IP layer is consulted.
pub fn parse<'a>(data: &'a [u8]) -> (r: Result<Packet<'a>, ParseError>)
    ensures
        parse_matches(data@, r, spec_parse_with(data@, ip_slice_of(data@))),
        data@.len() == 0 ==> r == Err::<Packet, ParseError>(ParseError::Truncated),
        data@.len() > 0 && data@[0] / 16 != 4 && data@[0] / 16 != 6 ==> r == Err::<
            Packet,
            ParseError,
        >(ParseError::UnsupportedVersion(data@[0] / 16)),
{
    if data.len() == 0 {
        return Err(ParseError::Truncated);
    }
    let version = data[0] / 16;
    if version != 4 && version != 6 {
        return Err(ParseError::UnsupportedVersion(version));
    }
    let ip = slice_ip(data);
    packet_from_ip_slice(data, ip)
}

/// A later fragment never reports transport ports: whatever the IP layer
/// reported, a packet whose fragmentation is `Later` has a `LaterFragment`
/// transport, so policy never reads ports from fragment data.
pub proof fn law_later_fragments_carry_no_ports(data: Seq<u8>, ip: Result<IpParts, IpFault>)
    ensures
        spec_parse_with(data, ip) matches Ok((w, m, f, t)) ==> (f is Later ==> (t is LaterFragment
            && spec_src_port(t) is None && spec_dst_port(t) is None)),
{
}

/// The wire length a packet reports never exceeds the bytes it came in;
/// trailing bytes beyond it are ignored.
pub proof fn law_wire_len_within_bytes(data: Seq<u8>, ip: Result<IpParts, IpFault>)
    ensures
        spec_parse_with(data, ip) matches Ok((w, m, f, t)) ==> w <= data.len(),
{
}

/// Policy never sees `Any` as a packet's protocol: numbers without a name
/// stay `Other`.
pub proof fn law_packet_protocol_is_never_any(n: u8)
    ensures
        spec_protocol_from_ip_number(n) != Protocol::Any,
        n != 6 && n != 17 && n != 1 ==> spec_protocol_from_ip_number(n) == Protocol::Other(n),
{
}

} // verus!
