//! Reject replies: what the data plane sends back to the source of a packet
//! that policy refused (a TCP reset, or an ICMP destination unreachable).

use crate::packet::{spec_ip_header_len, IpMeta, Packet, TcpFlags, Transport, TCP_ACK};
use etherparse::icmpv4::DestUnreachableHeader;
use etherparse::{Icmpv4Type, PacketBuilder};
use vstd::prelude::*;

verus! {

/// Hop limit of every reply the data plane synthesises.
pub const REPLY_TTL: u8 = 64;

/// Window advertised by a synthesised reset.
pub const RST_WINDOW: u16 = 0;

/// Most bytes of the refused packet quoted back in an ICMP error.
pub const MAX_QUOTE: usize = 28;

/// Destination-unreachable codes a reject reply uses.
#[derive(Debug, Clone, Copy, PartialEq, Eq, Structural)]
pub enum UnreachableCode {
    /// Port unreachable (answers a refused UDP datagram).
    Port,
    /// Communication administratively prohibited (answers refused ICMP).
    HostProhibited,
}

/// The bytes etherparse's `PacketBuilder` writes for an IPv4 packet from
/// `src` to `dst` with time-to-live `ttl`, carrying a TCP header with the
/// given ports, sequence number and window, the RST and ACK flags set, the
/// acknowledgment number `ack` and no payload; `None` when writing fails.
pub uninterp spec fn tcp_rst_bytes_of(
    src: u32,
    dst: u32,
    ttl: u8,
    src_port: u16,
    dst_port: u16,
    seq: u32,
    window: u16,
    ack: u32,
) -> Option<Seq<u8>>;

/// The bytes etherparse's `PacketBuilder` writes for an IPv4 packet from
/// `src` to `dst` with time-to-live `ttl`, carrying an ICMPv4 destination
/// unreachable header with `code` followed by `quoted`; `None` when writing
/// fails.
pub uninterp spec fn unreachable_bytes_of(
    src: u32,
    dst: u32,
    ttl: u8,
    code: UnreachableCode,
    quoted: Seq<u8>,
) -> Option<Seq<u8>>;

/// The view of an optional byte vector.
pub open spec fn opt_bytes(r: Option<Vec<u8>>) -> Option<Seq<u8>> {
    match r {
        Some(v) => Some(v@),
        None => None,
    }
}

/// Builds a TCP reset with etherparse: `PacketBuilder::ipv4`, `tcp`, `rst`,
/// `ack`, then `write` into a vector. The contract names the bytes written.
#[verifier::external_body]
fn build_tcp_rst(
    src: u32,
    dst: u32,
    ttl: u8,
    src_port: u16,
    dst_port: u16,
    seq: u32,
    window: u16,
    ack: u32,
) -> (r: Option<Vec<u8>>)
    ensures
        opt_bytes(r) == tcp_rst_bytes_of(src, dst, ttl, src_port, dst_port, seq, window, ack),
{
    let builder = PacketBuilder::ipv4(src.to_be_bytes(), dst.to_be_bytes(), ttl)
        .tcp(src_port, dst_port, seq, window)
        .rst()
        .ack(ack);
    let mut out = Vec::with_capacity(builder.size(0));
    builder.write(&mut out, &[]).ok()?;
    Some(out)
}

/// Builds an ICMPv4 destination unreachable with etherparse:
/// `PacketBuilder::ipv4`, `icmpv4`, then `write` of `quoted` into a vector.
/// The contract names the bytes written.
#[verifier::external_body]
fn build_unreachable(
    src: u32,
    dst: u32,
    ttl: u8,
    code: UnreachableCode,
    quoted: &[u8],
) -> (r: Option<Vec<u8>>)
    ensures
        opt_bytes(r) == unreachable_bytes_of(src, dst, ttl, code, quoted@),
{
    let code = match code {
        UnreachableCode::Port => DestUnreachableHeader::Port,
        UnreachableCode::HostProhibited => DestUnreachableHeader::HostProhibited,
    };
    let builder = PacketBuilder::ipv4(src.to_be_bytes(), dst.to_be_bytes(), ttl)
        .icmpv4(Icmpv4Type::DestinationUnreachable(code));
    let mut out = Vec::with_capacity(builder.size(quoted.len()));
    builder.write(&mut out, quoted).ok()?;
    Some(out)
}

/// Sequence number of a reset: the peer's acknowledgment number when it
/// sent one, else zero.
pub open spec fn rst_seq(flags: TcpFlags, ack: u32) -> u32 {
    if flags.has(TCP_ACK) {
        ack
    } else {
        0
    }
}

/// `seq + 1`, wrapping at 2^32.
pub open spec fn next_seq(seq: u32) -> u32 {
    if seq == u32::MAX {
        0
    } else {
        (seq + 1) as u32
    }
}

/// How many leading bytes of the refused packet an ICMP error quotes: its IP
/// header and eight bytes more, at most `MAX_QUOTE`, at most what is there.
pub open spec fn quote_len(raw_len: int, header_len: int) -> int {
    let a = if raw_len < header_len + 8 {
        raw_len
    } else {
        header_len + 8
    };
    if a < MAX_QUOTE {
        a
    } else {
        MAX_QUOTE as int
    }
}

/// The leading bytes of `raw` quoted back in an ICMP error.
pub open spec fn quoted_prefix(raw: Seq<u8>, header_len: usize) -> Seq<u8> {
    raw.take(quote_len(raw.len() as int, header_len as int))
}

/// `quote_len` computed without overflow.
fn quote_len_of(raw_len: usize, header_len: usize) -> (n: usize)
    ensures
        n as int == quote_len(raw_len as int, header_len as int),
{
    let with_header = if header_len < MAX_QUOTE - 8 {
        header_len + 8
    } else {
        MAX_QUOTE
    };
    if raw_len < with_header {
        raw_len
    } else {
        with_header
    }
}

/// The reply to a refused packet: a reset for TCP, port unreachable for UDP,
/// administratively prohibited for ICMPv4, always from the refused packet's
/// destination back to its source; nothing for IPv6 or other transports.
pub open spec fn spec_reject(p: Packet) -> Option<Seq<u8>> {
    match p.ip {
        IpMeta::V4 { src, dst, header_len, .. } => match p.transport {
            Transport::Tcp { src_port, dst_port, flags, seq, ack, .. } => tcp_rst_bytes_of(
                dst,
                src,
                REPLY_TTL,
                dst_port,
                src_port,
                rst_seq(flags, ack),
                RST_WINDOW,
                next_seq(seq),
            ),
            Transport::Udp { .. } => unreachable_bytes_of(
                dst,
                src,
                REPLY_TTL,
                UnreachableCode::Port,
                quoted_prefix(p.raw@, header_len),
            ),
            Transport::Icmpv4 { .. } => unreachable_bytes_of(
                dst,
                src,
                REPLY_TTL,
                UnreachableCode::HostProhibited,
                quoted_prefix(p.raw@, header_len),
            ),
            _ => None,
        },
        IpMeta::V6 { .. } => None,
    }
}

fn synthesize_tcp_rst(
    packet: &Packet,
    src_port: u16,
    dst_port: u16,
    flags: TcpFlags,
    seq: u32,
    ack: u32,
) -> (r: Option<Vec<u8>>)
    ensures
        match packet.ip {
            IpMeta::V4 { src, dst, .. } => opt_bytes(r) == tcp_rst_bytes_of(
                dst,
                src,
                REPLY_TTL,
                dst_port,
                src_port,
                rst_seq(flags, ack),
                RST_WINDOW,
                next_seq(seq),
            ),
            IpMeta::V6 { .. } => r is None,
        },
{
    let (orig_src, orig_dst) = match (packet.ip.v4_src(), packet.ip.v4_dst()) {
        (Some(s), Some(d)) => (s, d),
        _ => return None,
    };
    let new_seq = if flags.ack() {
        ack
    } else {
        0
    };
    let new_ack = seq.wrapping_add(1);
    build_tcp_rst(orig_dst, orig_src, REPLY_TTL, dst_port, src_port, new_seq, RST_WINDOW, new_ack)
}

fn synthesize_unreachable(packet: &Packet, code: UnreachableCode) -> (r: Option<Vec<u8>>)
    ensures
        match packet.ip {
            IpMeta::V4 { src, dst, header_len, .. } => opt_bytes(r) == unreachable_bytes_of(
                dst,
                src,
                REPLY_TTL,
                code,
                quoted_prefix(packet.raw@, header_len),
            ),
            IpMeta::V6 { .. } => r is None,
        },
{
    let (orig_src, orig_dst) = match (packet.ip.v4_src(), packet.ip.v4_dst()) {
        (Some(s), Some(d)) => (s, d),
        _ => return None,
    };
    let copy_len = quote_len_of(packet.raw.len(), packet.ip.header_len());
    let quoted = vstd::slice::slice_subrange(packet.raw, 0, copy_len);
    build_unreachable(orig_dst, orig_src, REPLY_TTL, code, quoted)
}

/// TCP RST or ICMP Destination Unreachable for the original packet's source.
pub fn synthesize_reject(packet: &Packet) -> (r: Option<Vec<u8>>)
    ensures
        opt_bytes(r) == spec_reject(*packet),
{
    match packet.transport {
        Transport::Tcp { src_port, dst_port, flags, seq, ack, .. } => synthesize_tcp_rst(
            packet,
            src_port,
            dst_port,
            flags,
            seq,
            ack,
        ),
        Transport::Udp { .. } => synthesize_unreachable(packet, UnreachableCode::Port),
        Transport::Icmpv4 { .. } => synthesize_unreachable(packet, UnreachableCode::HostProhibited),
        _ => None,
    }
}

} // verus!
