//! Owned data-plane packets: bytes plus metadata parsed once, a stable flow
//! key, and the time the packet was queued.

use crate::flow::{FlowKey, IpAddress};
use crate::packet::{
    parse, spec_ip_header_len, spec_ip_protocol, spec_parse_with, Fragmentation, IpMeta, Packet,
    Transport,
};
use crate::slicing::ip_slice_of;
use vstd::prelude::*;

verus! {

/// Ports standing in for a later fragment's, which carries none: the low
/// half of the datagram identification, and the protocol times 31.
pub open spec fn later_fragment_ports(identification: u32, protocol: u8) -> (u16, u16) {
    ((identification % 65536) as u16, (protocol * 31) as u16)
}

fn later_fragment_ports_of(identification: u32, protocol: u8) -> (r: (u16, u16))
    ensures
        r == later_fragment_ports(identification, protocol),
{
    ((identification % 65536) as u16, (protocol as u16) * 31)
}

pub open spec fn spec_addresses(ip: IpMeta) -> (IpAddress, IpAddress) {
    match ip {
        IpMeta::V4 { src, dst, .. } => (IpAddress::V4(src), IpAddress::V4(dst)),
        IpMeta::V6 { src, dst, .. } => (IpAddress::V6(src), IpAddress::V6(dst)),
    }
}

fn addresses_of(ip: IpMeta) -> (r: (IpAddress, IpAddress))
    ensures
        r == spec_addresses(ip),
{
    match ip {
        IpMeta::V4 { src, dst, .. } => (IpAddress::V4(src), IpAddress::V4(dst)),
        IpMeta::V6 { src, dst, .. } => (IpAddress::V6(src), IpAddress::V6(dst)),
    }
}

/// The ports a flow is keyed by: the transport ports for TCP and UDP, the
/// echo identifier for ICMPv4, none for other protocols.
pub open spec fn spec_flow_ports(t: Transport) -> (u16, u16) {
    match t {
        Transport::Tcp { src_port, dst_port, .. } => (src_port, dst_port),
        Transport::Udp { src_port, dst_port, .. } => (src_port, dst_port),
        Transport::Icmpv4 { echo_id, .. } => (
            match echo_id {
                Some(id) => id,
                None => 0,
            },
            0,
        ),
        Transport::Icmpv6 { .. } => (0, 0),
        Transport::Other { .. } => (0, 0),
        Transport::LaterFragment { protocol, identification, .. } => later_fragment_ports(
            identification,
            protocol,
        ),
    }
}

pub open spec fn spec_flow_key(ip: IpMeta, t: Transport) -> FlowKey {
    FlowKey {
        src: spec_addresses(ip).0,
        dst: spec_addresses(ip).1,
        proto: spec_ip_protocol(ip),
        sport: spec_flow_ports(t).0,
        dport: spec_flow_ports(t).1,
    }
}

fn flow_ports_of(t: Transport) -> (r: (u16, u16))
    ensures
        r == spec_flow_ports(t),
{
    match t {
        Transport::Tcp { src_port, dst_port, .. } => (src_port, dst_port),
        Transport::Udp { src_port, dst_port, .. } => (src_port, dst_port),
        Transport::Icmpv4 { echo_id, .. } => (
            match echo_id {
                Some(id) => id,
                None => 0,
            },
            0,
        ),
        Transport::Icmpv6 { .. } => (0, 0),
        Transport::Other { .. } => (0, 0),
        Transport::LaterFragment { protocol, identification, .. } => later_fragment_ports_of(
            identification,
            protocol,
        ),
    }
}

impl FlowKey {
    /// The scheduling key of a parsed packet.
    pub fn for_packet(pkt: &Packet) -> (k: FlowKey)
        ensures
            k == spec_flow_key(pkt.ip, pkt.transport),
    {
        let (src, dst) = addresses_of(pkt.ip);
        let (sport, dport) = flow_ports_of(pkt.transport);
        FlowKey { src, dst, proto: pkt.ip.ip_protocol(), sport, dport }
    }
}

/// How a packet relates to the SSH port translation of the agent's own
/// address.
#[derive(Debug, Clone, Copy, PartialEq, Eq, Structural)]
pub enum SshNatClass {
    /// No translation applies.
    Unmatched,
    /// SSH towards this host, to be redirected to the internal listener.
    InboundToInternal,
    /// Replies from the internal listener, to be translated back.
    OutboundToExternal,
}

/// Compact parsed metadata stored alongside owned bytes.
#[derive(Debug, Clone, Copy, PartialEq, Eq, Structural)]
pub struct PacketMeta {
    pub src_v4: Option<u32>,
    pub dst_v4: Option<u32>,
    pub src: IpAddress,
    pub dst: IpAddress,
    pub proto: u8,
    pub wire_len: usize,
    pub ip_header_len: usize,
    pub transport: Transport,
    pub fragmentation: Fragmentation,
    pub tcp_flags: u8,
}

pub open spec fn spec_v4_src(ip: IpMeta) -> Option<u32> {
    match ip {
        IpMeta::V4 { src, .. } => Some(src),
        IpMeta::V6 { .. } => None,
    }
}

pub open spec fn spec_v4_dst(ip: IpMeta) -> Option<u32> {
    match ip {
        IpMeta::V4 { dst, .. } => Some(dst),
        IpMeta::V6 { .. } => None,
    }
}

pub open spec fn spec_meta(
    wire_len: usize,
    ip: IpMeta,
    fragmentation: Fragmentation,
    transport: Transport,
) -> PacketMeta {
    PacketMeta {
        src_v4: spec_v4_src(ip),
        dst_v4: spec_v4_dst(ip),
        src: spec_addresses(ip).0,
        dst: spec_addresses(ip).1,
        proto: spec_ip_protocol(ip),
        wire_len,
        ip_header_len: spec_ip_header_len(ip),
        transport,
        fragmentation,
        tcp_flags: match transport {
            Transport::Tcp { flags, .. } => flags.0,
            _ => 0,
        },
    }
}

pub open spec fn spec_ssh_nat_class(m: PacketMeta, self_ip: u32) -> SshNatClass {
    if m.fragmentation is Later {
        SshNatClass::Unmatched
    } else {
        match m.transport {
            Transport::Tcp { src_port, dst_port, header_len, .. } => if header_len < 18 {
                SshNatClass::Unmatched
            } else if m.dst_v4 == Some(self_ip) && dst_port == 22 {
                SshNatClass::InboundToInternal
            } else if m.src_v4 == Some(self_ip) && src_port == 30022 {
                SshNatClass::OutboundToExternal
            } else {
                SshNatClass::Unmatched
            },
            _ => SshNatClass::Unmatched,
        }
    }
}

impl PacketMeta {
    pub fn from_packet(pkt: &Packet) -> (m: PacketMeta)
        ensures
            m == spec_meta(pkt.wire_len, pkt.ip, pkt.fragmentation, pkt.transport),
    {
        let (src, dst) = addresses_of(pkt.ip);
        let tcp_flags = match pkt.transport {
            Transport::Tcp { flags, .. } => flags.0,
            _ => 0,
        };
        PacketMeta {
            src_v4: pkt.ip.v4_src(),
            dst_v4: pkt.ip.v4_dst(),
            src,
            dst,
            proto: pkt.ip.ip_protocol(),
            wire_len: pkt.wire_len,
            ip_header_len: pkt.ip.header_len(),
            transport: pkt.transport,
            fragmentation: pkt.fragmentation,
            tcp_flags,
        }
    }

    pub fn is_fragment(&self) -> (b: bool)
        ensures
            b == !(self.fragmentation is Unfragmented),
    {
        !matches!(self.fragmentation, Fragmentation::Unfragmented)
    }

    pub fn is_later_fragment(&self) -> (b: bool)
        ensures
            b == (self.fragmentation is Later),
    {
        matches!(self.fragmentation, Fragmentation::Later { .. })
    }

    /// Cheap SSH-NAT precondition using stored metadata only (no reparse).
    pub fn ssh_nat_class(&self, self_ip: u32) -> (c: SshNatClass)
        ensures
            c == spec_ssh_nat_class(*self, self_ip),
    {
        if self.is_later_fragment() {
            return SshNatClass::Unmatched;
        }
        match self.transport {
            Transport::Tcp { src_port, dst_port, header_len, .. } => {
                if header_len < 18 {
                    SshNatClass::Unmatched
                } else if self.dst_v4 == Some(self_ip) && dst_port == 22 {
                    SshNatClass::InboundToInternal
                } else if self.src_v4 == Some(self_ip) && src_port == 30022 {
                    SshNatClass::OutboundToExternal
                } else {
                    SshNatClass::Unmatched
                }
            },
            _ => SshNatClass::Unmatched,
        }
    }
}

/// Owned data-plane packet: bytes, parse-once metadata, flow key, and the
/// time (in nanoseconds of the caller's monotonic clock) it was queued.
#[derive(Debug)]
pub struct PacketBuf {
    pub data: Vec<u8>,
    pub meta: PacketMeta,
    pub flow: FlowKey,
    pub enqueued_at: u64,
}

/// What a packet buffer built from `data` at time `now` holds, when `data`
/// parses.
pub open spec fn buf_from(data: Seq<u8>, now: u64, b: PacketBuf) -> bool {
    match spec_parse_with(data, ip_slice_of(data)) {
        Ok((wire_len, ip, frag, t)) => b.data@ == data && b.meta == spec_meta(wire_len, ip, frag, t)
            && b.flow == spec_flow_key(ip, t) && b.enqueued_at == now,
        Err(_) => false,
    }
}

impl PacketBuf {
    /// Parse `data` once and copy it; `None` when it does not parse.
    pub fn from_slice(data: &[u8], now: u64) -> (r: Option<PacketBuf>)
        ensures
            spec_parse_with(data@, ip_slice_of(data@)) is Err ==> r is None,
            spec_parse_with(data@, ip_slice_of(data@)) is Ok ==> (r matches Some(b) && buf_from(
                data@,
                now,
                b,
            )),
    {
        match parse(data) {
            Ok(pkt) => {
                let meta = PacketMeta::from_packet(&pkt);
                let flow = FlowKey::for_packet(&pkt);
                Some(PacketBuf { data: vstd::slice::slice_to_vec(data), meta, flow, enqueued_at: now })
            },
            Err(_) => None,
        }
    }

    /// Take ownership of the first `len` bytes of `data` without copying.
    pub fn from_vec(data: Vec<u8>, len: usize, now: u64) -> (r: Option<PacketBuf>)
        ensures
            ({
                let kept = if len <= data@.len() {
                    data@.subrange(0, len as int)
                } else {
                    data@
                };
                &&& spec_parse_with(kept, ip_slice_of(kept)) is Err ==> r is None
                &&& spec_parse_with(kept, ip_slice_of(kept)) is Ok ==> (r matches Some(b)
                    && buf_from(kept, now, b))
            }),
    {
        let mut data = data;
        data.truncate(len);
        let parsed = match parse(data.as_slice()) {
            Ok(pkt) => Some((PacketMeta::from_packet(&pkt), FlowKey::for_packet(&pkt))),
            Err(_) => None,
        };
        match parsed {
            Some((meta, flow)) => Some(PacketBuf { data, meta, flow, enqueued_at: now }),
            None => None,
        }
    }

    pub fn len(&self) -> (n: usize)
        ensures
            n == self.data@.len(),
    {
        self.data.len()
    }

    pub fn is_empty(&self) -> (b: bool)
        ensures
            b == (self.data@.len() == 0),
    {
        self.data.len() == 0
    }

    /// Time spent queued by `now`, or zero if the clock reads earlier.
    pub fn sojourn(&self, now: u64) -> (d: u64)
        ensures
            d == (if now >= self.enqueued_at {
                (now - self.enqueued_at) as u64
            } else {
                0
            }),
    {
        now.saturating_sub(self.enqueued_at)
    }

    pub fn as_bytes(&self) -> (b: &[u8])
        ensures
            b@ == self.data@,
    {
        self.data.as_slice()
    }

    /// The packet's bytes as a datagram payload, taking the buffer without
    /// copying it.
    pub fn into_bytes(self) -> (b: Vec<u8>)
        ensures
            b@ == self.data@,
    {
        self.data
    }
}

} // verus!
