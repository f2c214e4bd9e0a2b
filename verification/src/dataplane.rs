//! Per-packet decisions of the data plane. The routing table, the policy
//! runtime and the reassembly table answer questions; these functions turn
//! a packet and those answers into what happens to it, with the metric
//! labels it is counted under.

use crate::frame::{decode, frame_view, spec_decode, FrameView, SegmentHeader};
use crate::meta::{buf_from, PacketBuf, PacketMeta};
use crate::packet::spec_parse_with;
use crate::slicing::ip_slice_of;
use crate::tun::TUN_WRITE_BATCH;
use vstd::prelude::*;

verus! {

/// What the routing table says about a destination.
#[derive(Debug, Clone, Copy, PartialEq, Eq, Structural)]
pub enum RouteDecision {
    /// The magic DNS address, answered locally.
    LocalMagic,
    /// A subnet this node advertises itself.
    LocalAdvertised,
    NoRoute,
    /// A peer, with its overlay address.
    Peer(u32),
}

/// What the policy runtime says about a packet.
#[derive(Debug, Clone, Copy, PartialEq, Eq, Structural)]
pub enum PolicyVerdict {
    Allow,
    Deny,
    /// Deny and answer with a reject packet.
    Reject,
}

/// What happens to an outbound packet once its route is known.
#[derive(Debug, Clone, Copy)]
pub enum OutboundRoute {
    /// Dropped, counted under this label.
    Drop(&'static str),
    /// Ask the policy runtime about the packet towards this peer.
    CheckPolicy(u32),
}

/// The outbound route step: IPv4 destinations only, towards a peer other
/// than this node.
pub open spec fn spec_outbound_route(
    dst_v4: Option<u32>,
    route: Option<RouteDecision>,
    self_ip: u32,
) -> Option<Seq<char>> {
    match dst_v4 {
        None => Some("ipv6_unsupported"@),
        Some(_) => match route {
            Some(RouteDecision::LocalMagic) => Some("magic_dns_local"@),
            Some(RouteDecision::LocalAdvertised) => Some("local_subnet"@),
            Some(RouteDecision::NoRoute) => Some("no_route"@),
            Some(RouteDecision::Peer(ip)) => if ip == self_ip {
                Some("self"@)
            } else {
                None
            },
            None => None,
        },
    }
}

/// Decide an outbound packet's route: `route` is what the routing table
/// answered for its IPv4 destination (looked up only when there is one).
pub fn outbound_route(meta: &PacketMeta, route: RouteDecision, self_ip: u32) -> (r: OutboundRoute)
    ensures
        match spec_outbound_route(meta.dst_v4, Some(route), self_ip) {
            Some(label) => r matches OutboundRoute::Drop(l) && l@ == label,
            None => r == OutboundRoute::CheckPolicy(route->Peer_0),
        },
{
    if meta.dst_v4.is_none() {
        return OutboundRoute::Drop("ipv6_unsupported");
    }
    match route {
        RouteDecision::LocalMagic => OutboundRoute::Drop("magic_dns_local"),
        RouteDecision::LocalAdvertised => OutboundRoute::Drop("local_subnet"),
        RouteDecision::NoRoute => OutboundRoute::Drop("no_route"),
        RouteDecision::Peer(ip) => if ip == self_ip {
            OutboundRoute::Drop("self")
        } else {
            OutboundRoute::CheckPolicy(ip)
        },
    }
}

/// What the verdict means for a packet in `inbound` or outbound direction.
#[derive(Debug, Clone, Copy)]
pub enum VerdictAction {
    /// Go on: queue for the peer, or deliver to the TUN device.
    Pass,
    /// Dropped, counted under this label.
    Drop(&'static str),
    /// Dropped, counted under this label, and answered with a reject packet.
    Reject(&'static str),
}

pub fn verdict_action(verdict: PolicyVerdict, inbound: bool) -> (a: VerdictAction)
    ensures
        verdict == PolicyVerdict::Allow ==> a == VerdictAction::Pass,
        verdict == PolicyVerdict::Deny && !inbound ==> (a matches VerdictAction::Drop(l) && l@
            == "policy_deny"@),
        verdict == PolicyVerdict::Deny && inbound ==> (a matches VerdictAction::Drop(l) && l@
            == "policy_deny_in"@),
        verdict == PolicyVerdict::Reject && !inbound ==> (a matches VerdictAction::Reject(l) && l@
            == "fw_reject_out"@),
        verdict == PolicyVerdict::Reject && inbound ==> (a matches VerdictAction::Reject(l) && l@
            == "fw_reject_in"@),
{
    match verdict {
        PolicyVerdict::Allow => VerdictAction::Pass,
        PolicyVerdict::Deny => if inbound {
            VerdictAction::Drop("policy_deny_in")
        } else {
            VerdictAction::Drop("policy_deny")
        },
        PolicyVerdict::Reject => if inbound {
            VerdictAction::Reject("fw_reject_in")
        } else {
            VerdictAction::Reject("fw_reject_out")
        },
    }
}

/// The final decision on one packet.
#[derive(Debug, Clone, Copy)]
pub enum PacketDecision {
    /// Deliver it: stage it for the TUN device (inbound) or queue it for
    /// the peer (outbound).
    Deliver,
    /// Drop it, counted under this label.
    Drop(&'static str),
    /// Drop it, counted under this label, and answer with a reject packet.
    Reject(&'static str),
}

/// A packet decision as its kind and label text.
pub enum DecisionView {
    Deliver,
    Drop(Seq<char>),
    Reject(Seq<char>),
}

pub open spec fn decision_view(d: PacketDecision) -> DecisionView {
    match d {
        PacketDecision::Deliver => DecisionView::Deliver,
        PacketDecision::Drop(l) => DecisionView::Drop(l@),
        PacketDecision::Reject(l) => DecisionView::Reject(l@),
    }
}

/// What the policy verdict makes of a packet that passed every other check.
pub open spec fn spec_verdict_decision(verdict: PolicyVerdict, inbound: bool) -> DecisionView {
    match verdict {
        PolicyVerdict::Allow => DecisionView::Deliver,
        PolicyVerdict::Deny => DecisionView::Drop(
            if inbound {
                "policy_deny_in"@
            } else {
                "policy_deny"@
            },
        ),
        PolicyVerdict::Reject => DecisionView::Reject(
            if inbound {
                "fw_reject_in"@
            } else {
                "fw_reject_out"@
            },
        ),
    }
}

/// An inbound packet from the peer at `peer_ip`: IPv6 is refused, a source
/// other than the peer's address is a spoof, else the verdict decides.
pub open spec fn spec_inbound_decision(
    src_v4: Option<u32>,
    peer_ip: u32,
    verdict: PolicyVerdict,
) -> DecisionView {
    match src_v4 {
        None => DecisionView::Drop("ipv6_unsupported_in"@),
        Some(s) => if s != peer_ip {
            DecisionView::Drop("antispoof"@)
        } else {
            spec_verdict_decision(verdict, true)
        },
    }
}

fn decide_verdict(verdict: PolicyVerdict, inbound: bool) -> (d: PacketDecision)
    ensures
        decision_view(d) == spec_verdict_decision(verdict, inbound),
{
    match verdict_action(verdict, inbound) {
        VerdictAction::Pass => PacketDecision::Deliver,
        VerdictAction::Drop(l) => PacketDecision::Drop(l),
        VerdictAction::Reject(l) => PacketDecision::Reject(l),
    }
}

/// The inbound gate, from the answers of the checks: `verdict` is the
/// policy runtime's answer for the packet (asked once the source matched).
/// A packet is delivered exactly when it is IPv4 from the peer's own
/// address and the policy allows it.
pub fn inbound_decision(meta: &PacketMeta, peer_ip: u32, verdict: PolicyVerdict) -> (d:
    PacketDecision)
    ensures
        decision_view(d) == spec_inbound_decision(meta.src_v4, peer_ip, verdict),
        (d is Deliver) <==> (meta.src_v4 == Some(peer_ip) && verdict == PolicyVerdict::Allow),
{
    match inbound_source_check(meta, peer_ip) {
        Some(label) => PacketDecision::Drop(label),
        None => decide_verdict(verdict, true),
    }
}

/// An outbound packet of `len` bytes: over the MTU it is dropped, then the
/// route step decides, then the verdict for the peer.
pub open spec fn spec_outbound_decision(
    len: int,
    mtu: int,
    dst_v4: Option<u32>,
    route: RouteDecision,
    self_ip: u32,
    verdict: PolicyVerdict,
) -> DecisionView {
    if len > mtu {
        DecisionView::Drop("oversize_mtu"@)
    } else {
        match spec_outbound_route(dst_v4, Some(route), self_ip) {
            Some(label) => DecisionView::Drop(label),
            None => spec_verdict_decision(verdict, false),
        }
    }
}

/// The route names a peer other than this node.
pub open spec fn routes_to_other_peer(route: RouteDecision, self_ip: u32) -> bool {
    match route {
        RouteDecision::Peer(ip) => ip != self_ip,
        _ => false,
    }
}

/// The outbound gate, from the answers of the checks: `route` is the
/// routing table's answer and `verdict` the policy runtime's answer for the
/// peer (asked once the route named one). A packet is queued for the peer
/// exactly when it fits the MTU, is IPv4, routes to a peer other than this
/// node, and the policy allows it.
pub fn outbound_decision(
    len: usize,
    mtu: u16,
    meta: &PacketMeta,
    route: RouteDecision,
    self_ip: u32,
    verdict: PolicyVerdict,
) -> (d: PacketDecision)
    ensures
        decision_view(d) == spec_outbound_decision(
            len as int,
            mtu as int,
            meta.dst_v4,
            route,
            self_ip,
            verdict,
        ),
        (d is Deliver) <==> (len <= mtu && meta.dst_v4 is Some && routes_to_other_peer(route, self_ip)
            && verdict == PolicyVerdict::Allow),
{
    if let Some(label) = outbound_oversize(len, mtu) {
        return PacketDecision::Drop(label);
    }
    match outbound_route(meta, route, self_ip) {
        OutboundRoute::Drop(label) => PacketDecision::Drop(label),
        OutboundRoute::CheckPolicy(_) => decide_verdict(verdict, false),
    }
}

/// The text of an optional counter label.
pub open spec fn opt_label(l: Option<&'static str>) -> Option<Seq<char>> {
    match l {
        Some(t) => Some(t@),
        None => None,
    }
}

/// What an inbound datagram becomes before reassembly and policy.
#[derive(Debug)]
pub enum InboundFront {
    /// Refused: counted under the drop label, and under the reassembly
    /// label when there is one.
    Drop { drop: &'static str, reassembly: Option<&'static str> },
    /// A whole packet (reassembly label `single`).
    Packet(PacketBuf),
    /// A segment for the reassembly table.
    Segment(SegmentHeader, Vec<u8>),
}

/// Decode an inbound datagram: malformed framing is refused, a single frame
/// must hold a parseable packet, a segment goes to reassembly.
pub fn inbound_front(dg: &[u8], now: u64) -> (r: InboundFront)
    ensures
        spec_decode(dg@) is Err ==> (r matches InboundFront::Drop { drop, reassembly } && drop@
            == "malformed_frame"@ && opt_label(reassembly) == Some("malformed"@)),
        spec_decode(dg@) matches Ok(FrameView::Single(p)) ==> (spec_parse_with(p, ip_slice_of(p))
            is Err ==> (r matches InboundFront::Drop { drop, reassembly } && drop@
            == "malformed_transport"@ && reassembly is None)),
        spec_decode(dg@) matches Ok(FrameView::Single(p)) ==> (spec_parse_with(p, ip_slice_of(p))
            is Ok ==> (r matches InboundFront::Packet(b) && buf_from(p, now, b))),
        spec_decode(dg@) matches Ok(FrameView::Segment(h, p)) ==> (r matches InboundFront::Segment(
            g,
            q,
        ) && g == h && q@ == p),
{
    match decode(dg) {
        Err(_) => InboundFront::Drop { drop: "malformed_frame", reassembly: Some("malformed") },
        Ok(f) => {
            proof {
                assert(spec_decode(dg@) == Ok::<FrameView, crate::frame::DecodeError>(frame_view(f)));
            }
            match f {
                crate::frame::Frame::Single(p) => match PacketBuf::from_slice(p, now) {
                    Some(b) => InboundFront::Packet(b),
                    None => InboundFront::Drop { drop: "malformed_transport", reassembly: None },
                },
                crate::frame::Frame::Segment(h, p) => InboundFront::Segment(
                    h,
                    vstd::slice::slice_to_vec(p),
                ),
            }
        },
    }
}

/// Why the reassembly table refused a segment.
#[derive(Debug, Clone, Copy, PartialEq, Eq, Structural)]
pub enum ReassemblyDrop {
    Conflict,
    OverBytes,
    TooManyEntries,
    Malformed,
}

/// What the reassembly table answered for a segment.
#[derive(Debug)]
pub enum ReassemblyOutcome {
    /// The segment completed this logical packet.
    Complete(Vec<u8>),
    Pending,
    Duplicate,
    Dropped(ReassemblyDrop),
}

/// What follows a reassembly answer.
#[derive(Debug)]
pub enum AfterReassembly {
    /// A whole packet to admit (reassembly label `complete`).
    Packet(PacketBuf),
    /// Nothing to deliver: counted under the reassembly label and, when
    /// given, the drop label.
    Stop { reassembly: &'static str, drop: Option<&'static str> },
}

pub open spec fn reassembly_drop_label(d: ReassemblyDrop) -> Seq<char> {
    match d {
        ReassemblyDrop::Conflict => "reasm_conflict"@,
        ReassemblyDrop::OverBytes => "reasm_bytes"@,
        ReassemblyDrop::TooManyEntries => "reasm_entries"@,
        ReassemblyDrop::Malformed => "reasm_malformed"@,
    }
}

/// Parse a reassembled packet, keeping its bytes.
fn whole_packet(v: Vec<u8>, now: u64) -> (r: Option<PacketBuf>)
    ensures
        parses(v@) ==> (r matches Some(b) && buf_from(v@, now, b)),
        !parses(v@) ==> r is None,
{
    let len = v.len();
    let ghost whole = v@;
    proof {
        assert(whole.subrange(0, len as int) =~= whole);
    }
    PacketBuf::from_vec(v, len, now)
}

/// Whether a byte sequence parses as a packet.
pub open spec fn parses(p: Seq<u8>) -> bool {
    spec_parse_with(p, ip_slice_of(p)) is Ok
}

pub fn after_reassembly(out: ReassemblyOutcome, now: u64) -> (r: AfterReassembly)
    ensures
        match out {
            ReassemblyOutcome::Complete(v) => if parses(v@) {
                r matches AfterReassembly::Packet(b) && buf_from(v@, now, b)
            } else {
                r matches AfterReassembly::Stop { reassembly, drop: Some(d) } && reassembly@
                    == "complete"@ && d@ == "malformed_transport"@
            },
            ReassemblyOutcome::Pending => r matches AfterReassembly::Stop { reassembly, drop: None }
                && reassembly@ == "pending"@,
            ReassemblyOutcome::Duplicate => r matches AfterReassembly::Stop {
                reassembly,
                drop: None,
            } && reassembly@ == "duplicate"@,
            ReassemblyOutcome::Dropped(why) => r matches AfterReassembly::Stop {
                reassembly,
                drop: Some(d),
            } && reassembly@ == "dropped"@ && d@ == reassembly_drop_label(why),
        },
{
    match out {
        ReassemblyOutcome::Complete(v) => {
            match whole_packet(v, now) {
                Some(b) => AfterReassembly::Packet(b),
                None => AfterReassembly::Stop {
                    reassembly: "complete",
                    drop: Some("malformed_transport"),
                },
            }
        },
        ReassemblyOutcome::Pending => AfterReassembly::Stop { reassembly: "pending", drop: None },
        ReassemblyOutcome::Duplicate => AfterReassembly::Stop { reassembly: "duplicate", drop: None },
        ReassemblyOutcome::Dropped(why) => {
            let label = match why {
                ReassemblyDrop::Conflict => "reasm_conflict",
                ReassemblyDrop::OverBytes => "reasm_bytes",
                ReassemblyDrop::TooManyEntries => "reasm_entries",
                ReassemblyDrop::Malformed => "reasm_malformed",
            };
            AfterReassembly::Stop { reassembly: "dropped", drop: Some(label) }
        },
    }
}

/// Anti-spoofing for an inbound packet: it must be IPv4 and come from the
/// overlay address of the peer whose connection carried it.
pub fn inbound_source_check(meta: &PacketMeta, peer_ip: u32) -> (r: Option<&'static str>)
    ensures
        meta.src_v4 is None ==> (r matches Some(l) && l@ == "ipv6_unsupported_in"@),
        meta.src_v4 matches Some(s) && s != peer_ip ==> (r matches Some(l) && l@ == "antispoof"@),
        meta.src_v4 == Some(peer_ip) ==> r is None,
{
    match meta.src_v4 {
        None => Some("ipv6_unsupported_in"),
        Some(s) => if s == peer_ip {
            None
        } else {
            Some("antispoof")
        },
    }
}

/// Outbound packets longer than the virtual MTU are dropped, counted under
/// `oversize_mtu`.
pub fn outbound_oversize(len: usize, mtu: u16) -> (r: Option<&'static str>)
    ensures
        len > mtu ==> (r matches Some(l) && l@ == "oversize_mtu"@),
        len <= mtu ==> r is None,
{
    if len > mtu as usize {
        Some("oversize_mtu")
    } else {
        None
    }
}

/// Counts one handled datagram of an inbound drain (`staged`: it produced a
/// packet for the TUN device) and says whether the staged batch is written
/// now: a full batch is flushed mid-drain so bursts larger than a batch
/// complete without loss. After a successful flush the count restarts at 0.
pub fn ingress_after_datagram(pending: u32, staged: bool) -> (r: (u32, bool))
    requires
        pending < TUN_WRITE_BATCH,
    ensures
        r.0 == pending + (if staged { 1int } else { 0 }),
        r.1 == (r.0 >= TUN_WRITE_BATCH),
{
    let p = if staged {
        pending + 1
    } else {
        pending
    };
    (p, p as usize >= TUN_WRITE_BATCH)
}

/// Whether the staged batch is written when a drain ends: whenever
/// anything is staged.
pub fn ingress_flush_at_end(pending: u32) -> (b: bool)
    ensures
        b == (pending > 0),
{
    pending > 0
}

} // verus!
