//! The layer checks that etherparse performs on raw packet bytes.
//!
//! Each function here makes one etherparse call on a byte slice and reports
//! the outcome as plain values. Where the crate's source decides the outcome
//! with a few comparisons, the contract states them; the IP layer (version
//! dispatch, IPv4 length checks, the IPv4 authentication header and the IPv6
//! extension chain) is named instead.

use etherparse::err::ip::HeaderError::{Ipv4HeaderLengthSmallerThanHeader, UnsupportedIpVersion};
use etherparse::err::ip::HeadersError::Ip;
use etherparse::err::ip::SliceError::{IpHeaders, Len};
use etherparse::err::{Layer, LenError};
use etherparse::{Icmpv4Slice, Icmpv6Slice, IgmpSlice, IpSlice, TcpSlice, UdpSlice};
use vstd::prelude::*;

verus! {

/// What etherparse reports about an IP packet it accepted.
#[derive(Debug, Clone, Copy, PartialEq, Eq, Structural)]
pub struct IpParts {
    /// The packet is IPv6 (otherwise IPv4).
    pub version6: bool,
    /// Protocol number of the payload, after any extension headers.
    pub ip_number: u8,
    /// The payload is a fragment (more fragments follow, or a non-zero offset).
    pub fragmented: bool,
    /// Length of the payload after the IP header and its extensions.
    pub payload_len: usize,
}

/// Why etherparse refused an IP packet.
#[derive(Debug, Clone, Copy, PartialEq, Eq, Structural)]
pub enum IpFault {
    /// The slice ends inside a header.
    Len,
    /// The packet length announced by the header does not fit.
    PacketLen,
    /// The version nibble is neither 4 nor 6.
    UnsupportedVersion(u8),
    /// The IPv4 header length field is below five words.
    HeaderLength,
    /// An extension header is malformed.
    Header,
}

/// The outcome of `etherparse::IpSlice::from_slice` on a byte sequence.
pub uninterp spec fn ip_slice_of(data: Seq<u8>) -> Result<IpParts, IpFault>;

/// Calls `etherparse::IpSlice::from_slice`. On success it reports the IP
/// version, the payload's protocol number, whether the payload is a fragment
/// and the payload length; a refusal is reported by the kind of error. The
/// contract names this outcome and claims nothing more of it.
#[verifier::external_body]
pub(crate) fn slice_ip(data: &[u8]) -> (r: Result<IpParts, IpFault>)
    ensures
        r == ip_slice_of(data@),
{
    match IpSlice::from_slice(data) {
        Ok(s) => Ok(IpParts {
            version6: s.ipv6().is_some(),
            ip_number: s.payload().ip_number.0,
            fragmented: s.payload().fragmented,
            payload_len: s.payload().payload.len(),
        }),
        Err(Len(LenError { layer: Layer::Ipv4Packet | Layer::Ipv6Packet, .. })) => Err(IpFault::PacketLen),
        Err(Len(_)) => Err(IpFault::Len),
        Err(IpHeaders(Ip(UnsupportedIpVersion { version_number }))) => Err(IpFault::UnsupportedVersion(version_number)),
        Err(IpHeaders(Ip(Ipv4HeaderLengthSmallerThanHeader { .. }))) => Err(IpFault::HeaderLength),
        Err(IpHeaders(_)) => Err(IpFault::Header),
    }
}

/// TCP header length announced by the data-offset nibble of byte 12.
pub open spec fn tcp_data_offset_len(seg: Seq<u8>) -> int {
    (seg[12] / 16) * 4
}

/// The segments `etherparse::TcpSlice::from_slice` accepts: at least the
/// fixed 20-byte header, a data offset of at least five words, and the whole
/// announced header present.
pub open spec fn tcp_accepts(seg: Seq<u8>) -> bool {
    seg.len() >= 20 && tcp_data_offset_len(seg) >= 20 && seg.len() >= tcp_data_offset_len(seg)
}

/// Calls `etherparse::TcpSlice::from_slice` and reports the header length on
/// success. The contract restates the checks of that function's source.
#[verifier::external_body]
pub(crate) fn tcp_header_len(seg: &[u8]) -> (r: Option<usize>)
    ensures
        tcp_accepts(seg@) ==> r == Some(tcp_data_offset_len(seg@) as usize),
        !tcp_accepts(seg@) ==> r is None,
{
    match TcpSlice::from_slice(seg) {
        Ok(t) => Some(t.header_len()),
        Err(_) => None,
    }
}

/// How `etherparse::UdpSlice::from_slice` refuses a datagram.
#[derive(Debug, Clone, Copy, PartialEq, Eq, Structural)]
pub enum UdpFault {
    /// Shorter than the 8-byte header, or a non-zero length field below it.
    Header,
    /// The length field exceeds the bytes present.
    Payload,
}

/// The UDP length field.
pub open spec fn udp_len_field(seg: Seq<u8>) -> int {
    seg[4] * 256 + seg[5]
}

/// The outcome of `etherparse::UdpSlice::from_slice`: the length of the
/// datagram it keeps (the length field, or every byte when the field is
/// zero), or why it refuses.
pub open spec fn udp_slice_result(seg: Seq<u8>) -> Result<int, UdpFault> {
    if seg.len() < 8 {
        Err(UdpFault::Header)
    } else if seg.len() < udp_len_field(seg) {
        Err(UdpFault::Payload)
    } else if udp_len_field(seg) == 0 {
        Ok(seg.len() as int)
    } else if udp_len_field(seg) < 8 {
        Err(UdpFault::Header)
    } else {
        Ok(udp_len_field(seg))
    }
}

/// Calls `etherparse::UdpSlice::from_slice` and reports the length of the
/// datagram it keeps. The contract restates the checks of that function's
/// source and of the header slicing it starts with.
#[verifier::external_body]
pub(crate) fn udp_datagram_len(seg: &[u8]) -> (r: Result<usize, UdpFault>)
    ensures
        match udp_slice_result(seg@) {
            Ok(n) => r == Ok::<usize, UdpFault>(n as usize),
            Err(f) => r == Err::<usize, UdpFault>(f),
        },
{
    match UdpSlice::from_slice(seg) {
        Ok(u) => Ok(u.slice().len()),
        Err(LenError { layer: Layer::UdpHeader, .. }) => Err(UdpFault::Header),
        Err(_) => Err(UdpFault::Payload),
    }
}

/// ICMPv4 timestamp request or reply (types 13 and 14 with code 0), whose
/// message is exactly 20 bytes.
pub open spec fn icmpv4_timestamp(seg: Seq<u8>) -> bool {
    (seg[0] == 13 || seg[0] == 14) && seg[1] == 0
}

/// The header length `etherparse::Icmpv4Slice::from_slice` settles on, or
/// `None` when it refuses the message.
pub open spec fn icmpv4_header_len(seg: Seq<u8>) -> Option<usize> {
    if seg.len() < 8 {
        None
    } else if icmpv4_timestamp(seg) && seg.len() != 20 {
        None
    } else if icmpv4_timestamp(seg) {
        Some(20usize)
    } else {
        Some(8usize)
    }
}

/// Calls `etherparse::Icmpv4Slice::from_slice` and reports the header length
/// on success. The contract restates the checks of that function's source.
#[verifier::external_body]
pub(crate) fn icmpv4_slice(seg: &[u8]) -> (r: Option<usize>)
    ensures
        r == icmpv4_header_len(seg@),
{
    match Icmpv4Slice::from_slice(seg) {
        Ok(s) => Some(s.header_len()),
        Err(_) => None,
    }
}

/// The messages `etherparse::Icmpv6Slice::from_slice` accepts.
pub open spec fn icmpv6_accepts(seg: Seq<u8>) -> bool {
    8 <= seg.len() <= 0xffff_ffff
}

/// Calls `etherparse::Icmpv6Slice::from_slice` and reports whether it
/// accepts the message. The contract restates the checks of its source.
#[verifier::external_body]
pub(crate) fn icmpv6_slice(seg: &[u8]) -> (r: bool)
    ensures
        r == icmpv6_accepts(seg@),
{
    Icmpv6Slice::from_slice(seg).is_ok()
}

/// The outcome of `etherparse::IgmpSlice::from_slice`: the length of the
/// message it keeps (the whole slice) and of its header, or `None` when it
/// refuses. It refuses fewer than 8 bytes; a membership query (type 0x11)
/// must be exactly 8 bytes (header 8) or at least 12 bytes holding the
/// 4-byte source addresses its count (bytes 10..12, big-endian) declares
/// (header 12); any other type needs only the 8-byte header.
pub open spec fn igmp_slice_of(seg: Seq<u8>) -> Option<(usize, usize)> {
    if seg.len() < 8 {
        None
    } else if seg[0] == 0x11 {
        if seg.len() == 8 {
            Some((8usize, 8usize))
        } else if seg.len() >= 12 {
            if seg.len() < 12 + (seg[10] as int * 256 + seg[11] as int) * 4 {
                None
            } else {
                Some((seg.len() as usize, 12usize))
            }
        } else {
            None
        }
    } else {
        Some((seg.len() as usize, 8usize))
    }
}

/// Calls `etherparse::IgmpSlice::from_slice` and reports the message and
/// header lengths on success, as its source computes them.
#[verifier::external_body]
pub(crate) fn igmp_lengths(seg: &[u8]) -> (r: Option<(usize, usize)>)
    ensures
        r == igmp_slice_of(seg@),
{
    match IgmpSlice::from_slice(seg) {
        Ok(s) => Some((s.slice().len(), s.header_len())),
        Err(_) => None,
    }
}

} // verus!
