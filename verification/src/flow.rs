//! Flow identity used for scheduling and connection tracking.

use vstd::prelude::*;

verus! {

/// An IP address as the integer of its octets in network order
/// (`a.b.c.d` is `a << 24 | b << 16 | c << 8 | d`).
#[derive(Debug, Clone, Copy, PartialEq, Eq, Hash, Structural)]
pub enum IpAddress {
    V4(u32),
    V6(u128),
}

/// The order of addresses: every IPv4 address before every IPv6 address,
/// then numeric order within a family.
pub open spec fn ip_le(a: IpAddress, b: IpAddress) -> bool {
    match (a, b) {
        (IpAddress::V4(x), IpAddress::V4(y)) => x <= y,
        (IpAddress::V4(_), IpAddress::V6(_)) => true,
        (IpAddress::V6(_), IpAddress::V4(_)) => false,
        (IpAddress::V6(x), IpAddress::V6(y)) => x <= y,
    }
}

/// Lexicographic order of (address, port) pairs.
pub open spec fn endpoint_le(a: IpAddress, ap: u16, b: IpAddress, bp: u16) -> bool {
    if a == b {
        ap <= bp
    } else {
        ip_le(a, b)
    }
}

pub fn ip_less_eq(a: IpAddress, b: IpAddress) -> (r: bool)
    ensures
        r == ip_le(a, b),
{
    match (a, b) {
        (IpAddress::V4(x), IpAddress::V4(y)) => x <= y,
        (IpAddress::V4(_), IpAddress::V6(_)) => true,
        (IpAddress::V6(_), IpAddress::V4(_)) => false,
        (IpAddress::V6(x), IpAddress::V6(y)) => x <= y,
    }
}

/// Stable per-flow scheduling key.
///
/// TCP/UDP: IP 5-tuple. ICMP: src/dst/proto + echo id (cheap isolation).
/// Other protocols without ports: src/dst/proto.
#[derive(Debug, Clone, Copy, PartialEq, Eq, Hash, Structural)]
pub struct FlowKey {
    pub src: IpAddress,
    pub dst: IpAddress,
    pub proto: u8,
    pub sport: u16,
    pub dport: u16,
}

/// The same flow seen from the other end.
pub open spec fn reversed(k: FlowKey) -> FlowKey {
    FlowKey { src: k.dst, dst: k.src, proto: k.proto, sport: k.dport, dport: k.sport }
}

/// The orientation of a flow that starts at the lower endpoint.
pub open spec fn spec_canonical(k: FlowKey) -> (FlowKey, bool) {
    if endpoint_le(k.src, k.sport, k.dst, k.dport) {
        (k, false)
    } else {
        (reversed(k), true)
    }
}

impl FlowKey {
    /// Canonical bidirectional identity for conntrack fast-path hits: the key
    /// oriented from the lower endpoint, and whether it was reversed.
    pub fn canonical(self) -> (r: (Self, bool))
        ensures
            r == spec_canonical(self),
    {
        let rev = FlowKey {
            src: self.dst,
            dst: self.src,
            proto: self.proto,
            sport: self.dport,
            dport: self.sport,
        };
        let le = if self.src == self.dst {
            self.sport <= self.dport
        } else {
            ip_less_eq(self.src, self.dst)
        };
        if le {
            (self, false)
        } else {
            (rev, true)
        }
    }
}

/// Both directions of a flow share one canonical identity; exactly one of
/// them is reported as reversed unless the flow is its own reverse.
pub proof fn law_canonical_is_direction_free(k: FlowKey)
    ensures
        spec_canonical(k).0 == spec_canonical(reversed(k)).0,
        reversed(k) != k ==> spec_canonical(k).1 != spec_canonical(reversed(k)).1,
        spec_canonical(k).0 == k || spec_canonical(k).0 == reversed(k),
{
    assert(reversed(reversed(k)) == k);
}

} // verus!
